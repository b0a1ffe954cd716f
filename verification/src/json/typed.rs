use vstd::prelude::*;
use super::error::{Error, ErrorCode};
use super::read::{Fail, Position, position_of, spec_parse_str, fail_at};
use super::number::{FloatParts, ParserNumber, is_digit, peek_fail, spec_parse_integer};
use super::de::{ws_end, spec_ident};

verus! {

// Reading a value of an expected kind. When the value that comes is of
// another kind, it is read all the same (its text is checked) and reported
// with the place where it ends, for the caller to describe what it
// expected.

/// The kind of value found where another kind was expected, with its
/// contents where they describe it.
#[derive(Debug)]
pub enum Unexpected {
    Bool(bool),
    Unsigned(u64),
    Signed(i64),
    Float(FloatParts),
    Str(Vec<u8>),
    Unit,
    Sequence,
    Mapping,
}

/// The mathematical value of an [`Unexpected`]: strings as byte sequences.
pub enum UnexpectedValue {
    Bool(bool),
    Unsigned(u64),
    Signed(i64),
    Float(FloatParts),
    Str(Seq<u8>),
    Unit,
    Sequence,
    Mapping,
}

impl View for Unexpected {
    type V = UnexpectedValue;

    open spec fn view(&self) -> UnexpectedValue {
        match self {
            Unexpected::Bool(b) => UnexpectedValue::Bool(*b),
            Unexpected::Unsigned(n) => UnexpectedValue::Unsigned(*n),
            Unexpected::Signed(n) => UnexpectedValue::Signed(*n),
            Unexpected::Float(p) => UnexpectedValue::Float(*p),
            Unexpected::Str(v) => UnexpectedValue::Str(v@),
            Unexpected::Unit => UnexpectedValue::Unit,
            Unexpected::Sequence => UnexpectedValue::Sequence,
            Unexpected::Mapping => UnexpectedValue::Mapping,
        }
    }
}

/// Why reading a value of an expected kind failed: a syntax error, or a
/// value of another kind, which ends at the given line and column.
#[derive(Debug)]
pub enum TypedError {
    Syntax(Error),
    InvalidType { unexpected: Unexpected, line: usize, column: usize },
}

/// A failed read in the specifications: a syntax failure, or a value of
/// another kind and the index at which it ends.
pub enum TypedFail {
    Syntax(Fail),
    InvalidType(UnexpectedValue, int),
}

/// What a number read where another kind was expected is reported as.
pub open spec fn number_unexpected(n: ParserNumber) -> UnexpectedValue {
    match n {
        ParserNumber::F64(p) => UnexpectedValue::Float(p),
        ParserNumber::U64(v) => UnexpectedValue::Unsigned(v),
        ParserNumber::I64(v) => UnexpectedValue::Signed(v),
    }
}

/// Reading the value whose first byte is at index `j` only to report its
/// kind: literals, numbers and strings are read through; an array or object
/// is reported at its opening bracket; anything else is no value.
pub open spec fn spec_unexpected(s: Seq<u8>, j: int) -> Result<(UnexpectedValue, int), Fail> {
    let c: u8 = if 0 <= j < s.len() { s[j] } else { 0 };
    if c == 110 {
        match spec_ident(s, j + 1, seq![117u8, 108u8, 108u8]) {
            Ok(k) => Ok((UnexpectedValue::Unit, k)),
            Err(f) => Err(f),
        }
    } else if c == 116 {
        match spec_ident(s, j + 1, seq![114u8, 117u8, 101u8]) {
            Ok(k) => Ok((UnexpectedValue::Bool(true), k)),
            Err(f) => Err(f),
        }
    } else if c == 102 {
        match spec_ident(s, j + 1, seq![97u8, 108u8, 115u8, 101u8]) {
            Ok(k) => Ok((UnexpectedValue::Bool(false), k)),
            Err(f) => Err(f),
        }
    } else if c == 45 || is_digit(c) {
        match spec_parse_integer(s, c != 45, if c == 45 { j + 1 } else { j }) {
            Ok((n, k)) => Ok((number_unexpected(n), k)),
            Err(f) => Err(f),
        }
    } else if c == 34 {
        match spec_parse_str(s, j + 1) {
            Ok((b, k)) => Ok((UnexpectedValue::Str(b), k)),
            Err(f) => Err(f),
        }
    } else if c == 91 {
        Ok((UnexpectedValue::Sequence, j))
    } else if c == 123 {
        Ok((UnexpectedValue::Mapping, j))
    } else {
        Err(peek_fail(s, ErrorCode::ExpectedSomeValue, j))
    }
}

/// A value of another kind, found at `j`, as a typed failure.
pub open spec fn mismatch(s: Seq<u8>, j: int) -> TypedFail {
    match spec_unexpected(s, j) {
        Ok((u, k)) => TypedFail::InvalidType(u, k),
        Err(f) => TypedFail::Syntax(f),
    }
}

/// A literal `ident` after its first byte at `j`, giving `v`.
pub open spec fn literal<T>(s: Seq<u8>, j: int, ident: Seq<u8>, v: T) -> Result<(T, int), TypedFail> {
    match spec_ident(s, j + 1, ident) {
        Ok(k) => Ok((v, k)),
        Err(f) => Err(TypedFail::Syntax(f)),
    }
}

/// Reading a boolean from index `i` (after optional whitespace).
pub open spec fn spec_typed_bool(s: Seq<u8>, i: int) -> Result<(bool, int), TypedFail> {
    let j = ws_end(s, i);
    if j >= s.len() {
        Err(TypedFail::Syntax(peek_fail(s, ErrorCode::EofWhileParsingValue, j)))
    } else if s[j] == 116 {
        literal(s, j, seq![114u8, 117u8, 101u8], true)
    } else if s[j] == 102 {
        literal(s, j, seq![97u8, 108u8, 115u8, 101u8], false)
    } else {
        Err(mismatch(s, j))
    }
}

/// Reading `null` as the unit value from index `i`.
pub open spec fn spec_typed_unit(s: Seq<u8>, i: int) -> Result<((), int), TypedFail> {
    let j = ws_end(s, i);
    if j >= s.len() {
        Err(TypedFail::Syntax(peek_fail(s, ErrorCode::EofWhileParsingValue, j)))
    } else if s[j] == 110 {
        literal(s, j, seq![117u8, 108u8, 108u8], ())
    } else {
        Err(mismatch(s, j))
    }
}

/// Reading a string from index `i`: its decoded bytes.
pub open spec fn spec_typed_str(s: Seq<u8>, i: int) -> Result<(Seq<u8>, int), TypedFail> {
    let j = ws_end(s, i);
    if j >= s.len() {
        Err(TypedFail::Syntax(peek_fail(s, ErrorCode::EofWhileParsingValue, j)))
    } else if s[j] == 34 {
        match spec_parse_str(s, j + 1) {
            Ok((b, k)) => Ok((b, k)),
            Err(f) => Err(TypedFail::Syntax(f)),
        }
    } else {
        Err(mismatch(s, j))
    }
}

/// Reading a number from index `i`, for a caller that wants a number of a
/// primitive type.
pub open spec fn spec_typed_number(s: Seq<u8>, i: int) -> Result<(ParserNumber, int), TypedFail> {
    let j = ws_end(s, i);
    if j >= s.len() {
        Err(TypedFail::Syntax(peek_fail(s, ErrorCode::EofWhileParsingValue, j)))
    } else if s[j] == 45 || is_digit(s[j]) {
        match spec_parse_integer(s, s[j] != 45, if s[j] == 45 { j + 1 } else { j }) {
            Ok((n, k)) => Ok((n, k)),
            Err(f) => Err(TypedFail::Syntax(f)),
        }
    } else {
        Err(mismatch(s, j))
    }
}

/// Reading an optional value from index `i`: `null` is none (read); any
/// other value, or the end of the input, is a value to read next (nothing
/// is read but whitespace).
pub open spec fn spec_typed_option(s: Seq<u8>, i: int) -> Result<(bool, int), Fail> {
    let j = ws_end(s, i);
    if j < s.len() && s[j] == 110 {
        match spec_ident(s, j + 1, seq![117u8, 108u8, 108u8]) {
            Ok(k) => Ok((false, k)),
            Err(f) => Err(f),
        }
    } else {
        Ok((true, j))
    }
}

/// Opening an array (`seq`) or object at index `i`, with nesting depth `d`
/// still allowed (`u`: unlimited): the index after the bracket. Which
/// brackets are accepted is given by `arrays` and `objects`; the opening
/// bracket found is reported as `true` for an array.
pub open spec fn spec_typed_open(s: Seq<u8>, i: int, d: int, u: bool, arrays: bool, objects: bool) -> Result<
    (bool, int),
    TypedFail,
> {
    let j = ws_end(s, i);
    if j >= s.len() {
        Err(TypedFail::Syntax(peek_fail(s, ErrorCode::EofWhileParsingValue, j)))
    } else if (arrays && s[j] == 91) || (objects && s[j] == 123) {
        if !u && d <= 1 {
            Err(TypedFail::Syntax(peek_fail(s, ErrorCode::RecursionLimitExceeded, j)))
        } else {
            Ok((s[j] == 91, j + 1))
        }
    } else {
        Err(mismatch(s, j))
    }
}

/// The depth left after opening: one level less, unless unlimited, also
/// when the depth limit is reached.
pub open spec fn open_depth(r: Result<(bool, int), TypedFail>, d: int, u: bool) -> int {
    let spent = match r {
        Ok(_) => true,
        Err(TypedFail::Syntax((e, _))) => e.code == ErrorCode::RecursionLimitExceeded,
        _ => false,
    };
    if spent && !u { d - 1 } else { d }
}

/// Whether another element of an array comes, from index `i` (`first`: none
/// read yet): `true` with the index of its first byte, or `false` at the
/// closing `]` (not read).
pub open spec fn spec_seq_next(s: Seq<u8>, i: int, first: bool) -> Result<(bool, int), Fail> {
    let j = ws_end(s, i);
    if j >= s.len() {
        Err(peek_fail(s, ErrorCode::EofWhileParsingList, j))
    } else if s[j] == 93 {
        Ok((false, j))
    } else if s[j] == 44 && !first {
        let k = ws_end(s, j + 1);
        if k >= s.len() {
            Err(peek_fail(s, ErrorCode::EofWhileParsingValue, k))
        } else if s[k] == 93 {
            Err(peek_fail(s, ErrorCode::TrailingComma, k))
        } else {
            Ok((true, k))
        }
    } else if first {
        Ok((true, j))
    } else {
        Err(peek_fail(s, ErrorCode::ExpectedListCommaOrEnd, j))
    }
}

/// A key string whose opening quote is at index `k`, read.
pub open spec fn key_at(s: Seq<u8>, k: int) -> Result<(Option<Seq<u8>>, int), Fail> {
    match spec_parse_str(s, k + 1) {
        Ok((b, q)) => Ok((Some(b), q)),
        Err(f) => Err(f),
    }
}

/// The next key of an object, from index `i` (`first`: none read yet): the
/// key read, or none at the closing `}` (not read).
pub open spec fn spec_map_next(s: Seq<u8>, i: int, first: bool) -> Result<(Option<Seq<u8>>, int), Fail> {
    let j = ws_end(s, i);
    if j >= s.len() {
        Err(peek_fail(s, ErrorCode::EofWhileParsingObject, j))
    } else if s[j] == 125 {
        Ok((None, j))
    } else if s[j] == 44 && !first {
        let k = ws_end(s, j + 1);
        if k >= s.len() {
            Err(peek_fail(s, ErrorCode::EofWhileParsingValue, k))
        } else if s[k] == 34 {
            key_at(s, k)
        } else if s[k] == 125 {
            Err(peek_fail(s, ErrorCode::TrailingComma, k))
        } else {
            Err(peek_fail(s, ErrorCode::KeyMustBeAString, k))
        }
    } else if first {
        if s[j] == 34 {
            key_at(s, j)
        } else {
            Err(peek_fail(s, ErrorCode::KeyMustBeAString, j))
        }
    } else {
        Err(peek_fail(s, ErrorCode::ExpectedObjectCommaOrEnd, j))
    }
}

/// Opening an enum at index `i`: `{` (read, one level deeper) for a variant
/// with a value, given as `true`, or a string (not read) for a unit
/// variant.
pub open spec fn spec_enum_open(s: Seq<u8>, i: int, d: int, u: bool) -> Result<(bool, int), Fail> {
    let j = ws_end(s, i);
    if j >= s.len() {
        Err(peek_fail(s, ErrorCode::EofWhileParsingValue, j))
    } else if s[j] == 123 {
        if !u && d <= 1 {
            Err(peek_fail(s, ErrorCode::RecursionLimitExceeded, j))
        } else {
            Ok((true, j + 1))
        }
    } else if s[j] == 34 {
        Ok((false, j))
    } else {
        Err(peek_fail(s, ErrorCode::ExpectedSomeValue, j))
    }
}

/// The depth left after opening an enum.
pub open spec fn enum_depth(r: Result<(bool, int), Fail>, d: int, u: bool) -> int {
    let spent = match r {
        Ok((braced, _)) => braced,
        Err((e, _)) => e.code == ErrorCode::RecursionLimitExceeded,
    };
    if spent && !u { d - 1 } else { d }
}

/// Closing an enum's `{` after its variant and value, from index `i`.
pub open spec fn spec_enum_close(s: Seq<u8>, i: int) -> Result<int, Fail> {
    let j = ws_end(s, i);
    if j >= s.len() {
        Err(fail_at(s, ErrorCode::EofWhileParsingObject, j, j))
    } else if s[j] == 125 {
        Ok(j + 1)
    } else {
        Err(fail_at(s, ErrorCode::ExpectedSomeValue, j, j))
    }
}

/// What a typed read gave, against its specification: the value and where
/// the reader stopped, or the error.
pub open spec fn typed_outcome<T, V>(
    s: Seq<u8>,
    spec: Result<(V, int), TypedFail>,
    r: Result<T, TypedError>,
    view: spec_fn(T) -> V,
    index: int,
) -> bool {
    match spec {
        Ok((v, k)) => r is Ok && view(r->Ok_0) == v && index == k,
        Err(TypedFail::Syntax((e, k))) => r matches Err(TypedError::Syntax(e2)) && e2 == e && index == k,
        Err(TypedFail::InvalidType(u, k)) => {
            &&& r matches Err(TypedError::InvalidType { unexpected, line, column }) && unexpected@ == u
                && (Position { line, column }) == position_of(s, k)
            &&& index == k
        },
    }
}

} // verus!
