use vstd::prelude::*;
use super::error::{Error, ErrorCode};
use crate::utf8::{utf8_check, spec_valid_up_to};

verus! {

broadcast use vstd::seq_lib::group_seq_properties;

/// Number of newline bytes in `s[0..i]`.
pub open spec fn count_newlines(s: Seq<u8>, i: int) -> nat
    decreases i,
{
    if i <= 0 {
        0
    } else {
        count_newlines(s, i - 1) + if s[i - 1] == 10u8 { 1nat } else { 0nat }
    }
}

/// The index where the line holding index `i` starts: just after the last
/// newline in `s[0..i]`, or 0.
pub open spec fn line_start(s: Seq<u8>, i: int) -> int
    decreases i,
{
    if i <= 0 {
        0
    } else if s[i - 1] == 10u8 {
        i
    } else {
        line_start(s, i - 1)
    }
}

/// The line (from 1) of index `i` of `s`.
pub open spec fn line_of(s: Seq<u8>, i: int) -> int {
    1 + count_newlines(s, i) as int
}

/// The column (in bytes, from 0) of index `i` of `s`.
pub open spec fn column_of(s: Seq<u8>, i: int) -> int {
    i - line_start(s, i)
}

/// The syntax error with the given code, located at index `i` of `s`.
pub open spec fn err_at(s: Seq<u8>, code: ErrorCode, i: int) -> Error {
    Error { code, line: line_of(s, i) as usize, column: column_of(s, i) as usize }
}

/// A failed read in the specifications: the error, and the index at which
/// the reader stopped.
pub type Fail = (Error, int);

pub open spec fn fail_at(s: Seq<u8>, code: ErrorCode, pos: int, at: int) -> Fail {
    (err_at(s, code, pos), at)
}

pub proof fn lemma_line_start_bounds(s: Seq<u8>, i: int)
    requires
        0 <= i <= s.len(),
    ensures
        0 <= line_start(s, i) <= i,
        count_newlines(s, i) <= i,
    decreases i,
{
    if i > 0 {
        lemma_line_start_bounds(s, i - 1);
    }
}

pub proof fn lemma_err_line(s: Seq<u8>, code: ErrorCode, i: int)
    requires
        0 <= i <= s.len() <= isize::MAX,
    ensures
        err_at(s, code, i).line >= 1,
{
    lemma_line_start_bounds(s, i);
}

/// A line and column in the input.
#[derive(Clone, Copy, Debug, PartialEq, Eq, Structural)]
pub struct Position {
    pub line: usize,
    pub column: usize,
}

pub open spec fn position_of(s: Seq<u8>, i: int) -> Position {
    Position { line: line_of(s, i) as usize, column: column_of(s, i) as usize }
}

pub open spec fn is_hex(b: u8) -> bool {
    (48 <= b <= 57) || (65 <= b <= 70) || (97 <= b <= 102)
}

pub open spec fn hex_val(b: u8) -> int {
    if 48 <= b <= 57 {
        b - 48
    } else if 65 <= b <= 70 {
        b - 55
    } else {
        b - 87
    }
}

/// The value of four hexadecimal digits at `s[i..i+4]`.
pub open spec fn hex4(s: Seq<u8>, i: int) -> int {
    hex_val(s[i]) * 4096 + hex_val(s[i + 1]) * 256 + hex_val(s[i + 2]) * 16 + hex_val(s[i + 3])
}

/// Reading a `\u` escape's four hex digits starting at index `i`.
pub open spec fn spec_decode_hex(s: Seq<u8>, i: int) -> Result<(int, int), Fail> {
    if i + 4 > s.len() {
        Err(fail_at(s, ErrorCode::EofWhileParsingString, s.len() as int, s.len() as int))
    } else if is_hex(s[i]) && is_hex(s[i + 1]) && is_hex(s[i + 2]) && is_hex(s[i + 3]) {
        Ok((hex4(s, i), i + 4))
    } else {
        Err(fail_at(s, ErrorCode::InvalidEscape, i + 4, i + 4))
    }
}

/// Skipping the character after a backslash, at index `i`, in a string that
/// is only checked, not decoded.
pub open spec fn spec_ignore_escape(s: Seq<u8>, i: int) -> Result<int, Fail> {
    if i >= s.len() {
        Err(fail_at(s, ErrorCode::EofWhileParsingString, i, i))
    } else {
        let ch = s[i];
        if ch == 34 || ch == 92 || ch == 47 || ch == 98 || ch == 102 || ch == 110 || ch == 114
            || ch == 116 {
            Ok(i + 1)
        } else if ch == 117 {
            match spec_decode_hex(s, i + 1) {
                Ok((_, j)) => Ok(j),
                Err(f) => Err(f),
            }
        } else {
            Err(fail_at(s, ErrorCode::InvalidEscape, i + 1, i + 1))
        }
    }
}

/// Checking the rest of a string that starts just before index `i` (after
/// its opening quote): the index after its closing quote, or the failure.
pub open spec fn spec_ignore_str(s: Seq<u8>, i: int) -> Result<int, Fail>
    decreases s.len() - i,
{
    if i < 0 || i >= s.len() {
        Err(fail_at(s, ErrorCode::EofWhileParsingString, s.len() as int, s.len() as int))
    } else if s[i] == 34 {
        Ok(i + 1)
    } else if s[i] == 92 {
        match spec_ignore_escape(s, i + 1) {
            Ok(j) => if j > i { spec_ignore_str(s, j) } else { Ok(j) },
            Err(f) => Err(f),
        }
    } else if s[i] < 0x20 {
        Err(fail_at(s, ErrorCode::ControlCharacterWhileParsingString, i, i))
    } else {
        spec_ignore_str(s, i + 1)
    }
}

/// The UTF-8 encoding of a Unicode scalar value.
pub open spec fn utf8_of(n: int) -> Seq<u8> {
    vstd::utf8::encode_scalar(n as u32)
}

/// Decoding a `\u` escape whose four digits start at index `k`, in a string
/// that must be valid Unicode: a surrogate pair combines into one scalar.
pub open spec fn spec_unicode_escape(s: Seq<u8>, k: int) -> Result<(Seq<u8>, int), Fail> {
    match spec_decode_hex(s, k) {
        Err(f) => Err(f),
        Ok((n, j)) => {
            if 0xDC00 <= n <= 0xDFFF {
                Err(fail_at(s, ErrorCode::LoneLeadingSurrogateInHexEscape, j, j))
            } else if n < 0xD800 || n > 0xDBFF {
                Ok((utf8_of(n), j))
            } else if j >= s.len() {
                Err(fail_at(s, ErrorCode::EofWhileParsingString, j, j))
            } else if s[j] != 92 {
                Err(fail_at(s, ErrorCode::UnexpectedEndOfHexEscape, j + 1, j + 1))
            } else if j + 1 >= s.len() {
                Err(fail_at(s, ErrorCode::EofWhileParsingString, j + 1, j + 1))
            } else if s[j + 1] != 117 {
                Err(fail_at(s, ErrorCode::UnexpectedEndOfHexEscape, j + 2, j + 2))
            } else {
                match spec_decode_hex(s, j + 2) {
                    Err(f) => Err(f),
                    Ok((n2, j2)) => {
                        if n2 < 0xDC00 || n2 > 0xDFFF {
                            Err(fail_at(s, ErrorCode::LoneLeadingSurrogateInHexEscape, j2, j2))
                        } else {
                            Ok((utf8_of((n - 0xD800) * 1024 + (n2 - 0xDC00) + 0x10000), j2))
                        }
                    },
                }
            }
        },
    }
}

/// Decoding the character after a backslash at index `i`.
pub open spec fn spec_parse_escape(s: Seq<u8>, i: int) -> Result<(Seq<u8>, int), Fail> {
    if i >= s.len() {
        Err(fail_at(s, ErrorCode::EofWhileParsingString, i, i))
    } else {
        let ch = s[i];
        if ch == 34 || ch == 92 || ch == 47 {
            Ok((seq![ch], i + 1))
        } else if ch == 98 {
            Ok((seq![8u8], i + 1))
        } else if ch == 102 {
            Ok((seq![12u8], i + 1))
        } else if ch == 110 {
            Ok((seq![10u8], i + 1))
        } else if ch == 114 {
            Ok((seq![13u8], i + 1))
        } else if ch == 116 {
            Ok((seq![9u8], i + 1))
        } else if ch == 117 {
            spec_unicode_escape(s, i + 1)
        } else {
            Err(fail_at(s, ErrorCode::InvalidEscape, i + 1, i + 1))
        }
    }
}

/// Decoding the rest of a string from index `i`, where `acc` holds what was
/// decoded so far: the decoded bytes and the index after the closing quote.
pub open spec fn spec_str_bytes(s: Seq<u8>, i: int, acc: Seq<u8>) -> Result<(Seq<u8>, int), Fail>
    decreases s.len() - i,
{
    if i < 0 || i >= s.len() {
        Err(fail_at(s, ErrorCode::EofWhileParsingString, s.len() as int, s.len() as int))
    } else if s[i] == 34 {
        Ok((acc, i + 1))
    } else if s[i] == 92 {
        match spec_parse_escape(s, i + 1) {
            Ok((bytes, j)) => if j > i { spec_str_bytes(s, j, acc + bytes) } else { Ok((acc, j)) },
            Err(f) => Err(f),
        }
    } else if s[i] < 0x20 {
        Err(fail_at(s, ErrorCode::ControlCharacterWhileParsingString, i + 1, i + 1))
    } else {
        spec_str_bytes(s, i + 1, acc.push(s[i]))
    }
}

/// Decoding a string whose opening quote is just before index `i`: the
/// decoded text must be valid UTF-8; otherwise the error points back at the
/// first invalid byte.
pub open spec fn spec_parse_str(s: Seq<u8>, i: int) -> Result<(Seq<u8>, int), Fail> {
    match spec_str_bytes(s, i, seq![]) {
        Err(f) => Err(f),
        Ok((bytes, j)) => {
            if vstd::utf8::valid_utf8(bytes) {
                Ok((bytes, j))
            } else {
                let col = column_of(s, j);
                let back = bytes.len() - spec_valid_up_to(bytes);
                let c = if col >= back { col - back } else { 0 };
                Err((
                    Error {
                        code: ErrorCode::InvalidUnicodeCodePoint,
                        line: line_of(s, j) as usize,
                        column: c as usize,
                    },
                    j,
                ))
            }
        },
    }
}

/// A reader over a byte slice: the input, and the index of the next byte.
pub struct SliceRead<'a> {
    slice: &'a [u8],
    index: usize,
}

impl<'a> SliceRead<'a> {
    pub closed spec fn input(&self) -> Seq<u8> {
        self.slice@
    }

    pub closed spec fn index(&self) -> int {
        self.index as int
    }

    pub closed spec fn wf(&self) -> bool {
        &&& self.index <= self.slice@.len()
        &&& self.slice@.len() <= isize::MAX
    }

    pub broadcast proof fn lemma_read_wf(r: &SliceRead<'a>)
        requires
            #[trigger] r.wf(),
        ensures
            0 <= r.index() <= r.input().len() <= isize::MAX,
    {
    }

    /// A reader at the start of `slice`.
    pub fn new(slice: &'a [u8]) -> (r: Self)
        requires
            slice@.len() <= isize::MAX,
        ensures
            r.wf(),
            r.input() == slice@,
            r.index() == 0,
    {
        SliceRead { slice, index: 0 }
    }

    /// Reads the next byte, if any.
    pub fn next(&mut self) -> (b: Option<u8>)
        requires
            old(self).wf(),
        ensures
            final(self).wf(),
            final(self).input() == old(self).input(),
            old(self).index() < old(self).input().len() ==> b == Some(old(self).input()[old(self).index()])
                && final(self).index() == old(self).index() + 1,
            old(self).index() >= old(self).input().len() ==> b is None && final(self).index() == old(self).index(),
    {
        if self.index < self.slice.len() {
            let ch = self.slice[self.index];
            self.index = self.index + 1;
            Some(ch)
        } else {
            None
        }
    }

    /// The next byte, if any, without reading it.
    pub fn peek(&self) -> (b: Option<u8>)
        requires
            self.wf(),
        ensures
            self.index() < self.input().len() ==> b == Some(self.input()[self.index()]),
            self.index() >= self.input().len() ==> b is None,
    {
        if self.index < self.slice.len() {
            Some(self.slice[self.index])
        } else {
            None
        }
    }

    /// Skips the next byte, which `peek` has returned.
    pub fn discard(&mut self)
        requires
            old(self).wf(),
            old(self).index() < old(self).input().len(),
        ensures
            final(self).wf(),
            final(self).input() == old(self).input(),
            final(self).index() == old(self).index() + 1,
    {
        self.index = self.index + 1;
    }

    /// The position of index `i`.
    fn position_of_index(&self, i: usize) -> (p: Position)
        requires
            self.wf(),
            i <= self.slice@.len(),
        ensures
            p == position_of(self.slice@, i as int),
    {
        let mut j: usize = 0;
        let mut newlines: usize = 0;
        let mut start: usize = 0;
        while j < i
            invariant
                self.wf(),
                i <= self.slice@.len(),
                j <= i,
                newlines == count_newlines(self.slice@, j as int),
                start == line_start(self.slice@, j as int),
                newlines <= j,
                start <= j,
            decreases i - j,
        {
            if self.slice[j] == 10u8 {
                newlines = newlines + 1;
                start = j + 1;
            }
            j = j + 1;
        }
        Position { line: newlines + 1, column: i - start }
    }

    /// The position of the byte most recently read.
    pub fn position(&self) -> (p: Position)
        requires
            self.wf(),
        ensures
            p == position_of(self.input(), self.index()),
    {
        self.position_of_index(self.index)
    }

    /// The position of the byte that `peek` returns.
    pub fn peek_position(&self) -> (p: Position)
        requires
            self.wf(),
        ensures
            p == position_of(
                self.input(),
                if self.index() + 1 <= self.input().len() { self.index() + 1 } else { self.input().len() as int },
            ),
    {
        if self.index + 1 <= self.slice.len() {
            self.position_of_index(self.index + 1)
        } else {
            self.position_of_index(self.slice.len())
        }
    }

    /// The number of bytes read so far.
    pub fn byte_offset(&self) -> (n: usize)
        requires
            self.wf(),
        ensures
            n == self.index(),
    {
        self.index
    }

    /// The error with the given code at the current position.
    pub fn error(&self, code: ErrorCode) -> (e: Error)
        requires
            self.wf(),
        ensures
            e == err_at(self.input(), code, self.index()),
            e.line >= 1,
    {
        proof {
            lemma_err_line(self.input(), code, self.index());
        }
        let p = self.position();
        Error { code, line: p.line, column: p.column }
    }

    /// Drops the unread input, so that the reader is at its end.
    pub fn set_failed(&mut self)
        requires
            old(self).wf(),
        ensures
            final(self).wf(),
            final(self).input() == old(self).input().subrange(0, old(self).index()),
            final(self).index() == old(self).index(),
    {
        let s = self.slice;
        self.slice = vstd::slice::slice_subrange(s, 0, self.index);
    }

    /// Reads four hex digits of a `\u` escape.
    fn decode_hex_escape(&mut self) -> (r: Result<u16, Error>)
        requires
            old(self).wf(),
        ensures
            final(self).wf(),
            final(self).input() == old(self).input(),
            old(self).index() <= final(self).index(),
            r is Err ==> r->Err_0.line >= 1,
            r is Err ==> r->Err_0.code != ErrorCode::RecursionLimitExceeded,
            match spec_decode_hex(old(self).input(), old(self).index()) {
                Ok((n, j)) => r == Ok::<u16, Error>(n as u16) && final(self).index() == j && n < 0x10000,
                Err((e, j)) => r == Err::<u16, Error>(e) && final(self).index() == j,
            },
    {
        let s = self.slice;
        let i = self.index;
        if s.len() < 4 || i > s.len() - 4 {
            self.index = s.len();
            return Err(self.error(ErrorCode::EofWhileParsingString));
        }
        self.index = i + 4;
        let a = hex_digit(s[i]);
        let b = hex_digit(s[i + 1]);
        let c = hex_digit(s[i + 2]);
        let d = hex_digit(s[i + 3]);
        match (a, b, c, d) {
            (Some(a), Some(b), Some(c), Some(d)) => {
                Ok(a as u16 * 4096 + b as u16 * 256 + c as u16 * 16 + d as u16)
            },
            _ => Err(self.error(ErrorCode::InvalidEscape)),
        }
    }

    /// Skips the character after a backslash.
    fn ignore_escape(&mut self) -> (r: Result<(), Error>)
        requires
            old(self).wf(),
        ensures
            final(self).wf(),
            final(self).input() == old(self).input(),
            old(self).index() <= final(self).index(),
            r is Err ==> r->Err_0.line >= 1,
            r is Err ==> r->Err_0.code != ErrorCode::RecursionLimitExceeded,
            match spec_ignore_escape(old(self).input(), old(self).index()) {
                Ok(j) => r is Ok && final(self).index() == j,
                Err((e, j)) => r == Err::<(), Error>(e) && final(self).index() == j,
            },
    {
        let ch = match self.next() {
            Some(b) => b,
            None => {
                return Err(self.error(ErrorCode::EofWhileParsingString));
            },
        };
        if ch == 34u8 || ch == 92u8 || ch == 47u8 || ch == 98u8 || ch == 102u8 || ch == 110u8
            || ch == 114u8 || ch == 116u8 {
            Ok(())
        } else if ch == 117u8 {
            match self.decode_hex_escape() {
                Ok(_) => Ok(()),
                Err(e) => Err(e),
            }
        } else {
            Err(self.error(ErrorCode::InvalidEscape))
        }
    }

    /// Skips the rest of a string, checking its escapes and that it holds no
    /// control character.
    pub fn ignore_str(&mut self) -> (r: Result<(), Error>)
        requires
            old(self).wf(),
        ensures
            final(self).wf(),
            final(self).input() == old(self).input(),
            old(self).index() <= final(self).index(),
            r is Err ==> r->Err_0.line >= 1,
            r is Err ==> r->Err_0.code != ErrorCode::RecursionLimitExceeded,
            match spec_ignore_str(old(self).input(), old(self).index()) {
                Ok(j) => r is Ok && final(self).index() == j,
                Err((e, j)) => r == Err::<(), Error>(e) && final(self).index() == j,
            },
    {
        let ghost s = self.input();
        let ghost i0 = self.index();
        loop
            invariant
                self.wf(),
                self.input() == s,
                s == old(self).input(),
                i0 == old(self).index(),
                i0 <= self.index(),
                spec_ignore_str(s, self.index()) == spec_ignore_str(s, i0),
            decreases s.len() - self.index(),
        {
            if self.index >= self.slice.len() {
                return Err(self.error(ErrorCode::EofWhileParsingString));
            }
            let ch = self.slice[self.index];
            if ch == 34u8 {
                self.index = self.index + 1;
                return Ok(());
            } else if ch == 92u8 {
                self.index = self.index + 1;
                match self.ignore_escape() {
                    Ok(()) => {},
                    Err(e) => {
                        return Err(e);
                    },
                }
            } else if ch < 0x20 {
                return Err(self.error(ErrorCode::ControlCharacterWhileParsingString));
            } else {
                self.index = self.index + 1;
            }
        }
    }

    /// Decodes a `\u` escape whose four digits come next.
    fn parse_unicode_escape(&mut self, out: &mut Vec<u8>) -> (r: Result<(), Error>)
        requires
            old(self).wf(),
        ensures
            final(self).wf(),
            final(self).input() == old(self).input(),
            old(self).index() <= final(self).index(),
            r is Err ==> r->Err_0.line >= 1,
            r is Err ==> r->Err_0.code != ErrorCode::RecursionLimitExceeded,
            match spec_unicode_escape(old(self).input(), old(self).index()) {
                Ok((bytes, j)) => r is Ok && final(self).index() == j && final(out)@ == old(out)@ + bytes,
                Err((e, j)) => r == Err::<(), Error>(e) && final(self).index() == j,
            },
    {
        let n = match self.decode_hex_escape() {
            Ok(n) => n,
            Err(e) => {
                return Err(e);
            },
        };
        if 0xDC00 <= n && n <= 0xDFFF {
            return Err(self.error(ErrorCode::LoneLeadingSurrogateInHexEscape));
        }
        if n < 0xD800 || n > 0xDBFF {
            push_scalar(n as u32, out);
            return Ok(());
        }
        match self.peek() {
            None => {
                return Err(self.error(ErrorCode::EofWhileParsingString));
            },
            Some(b) => {
                self.discard();
                if b != 92u8 {
                    return Err(self.error(ErrorCode::UnexpectedEndOfHexEscape));
                }
            },
        }
        match self.peek() {
            None => {
                return Err(self.error(ErrorCode::EofWhileParsingString));
            },
            Some(b) => {
                self.discard();
                if b != 117u8 {
                    return Err(self.error(ErrorCode::UnexpectedEndOfHexEscape));
                }
            },
        }
        let n2 = match self.decode_hex_escape() {
            Ok(n2) => n2,
            Err(e) => {
                return Err(e);
            },
        };
        if n2 < 0xDC00 || n2 > 0xDFFF {
            return Err(self.error(ErrorCode::LoneLeadingSurrogateInHexEscape));
        }
        let c: u32 = (n - 0xD800) as u32 * 1024 + (n2 - 0xDC00) as u32 + 0x10000;
        push_scalar(c, out);
        Ok(())
    }

    /// Decodes the character after a backslash.
    fn parse_escape(&mut self, out: &mut Vec<u8>) -> (r: Result<(), Error>)
        requires
            old(self).wf(),
        ensures
            final(self).wf(),
            final(self).input() == old(self).input(),
            old(self).index() <= final(self).index(),
            r is Err ==> r->Err_0.line >= 1,
            r is Err ==> r->Err_0.code != ErrorCode::RecursionLimitExceeded,
            match spec_parse_escape(old(self).input(), old(self).index()) {
                Ok((bytes, j)) => r is Ok && final(self).index() == j && final(out)@ == old(out)@ + bytes,
                Err((e, j)) => r == Err::<(), Error>(e) && final(self).index() == j,
            },
    {
        let ch = match self.next() {
            Some(b) => b,
            None => {
                return Err(self.error(ErrorCode::EofWhileParsingString));
            },
        };
        let decoded: u8 = if ch == 34u8 || ch == 92u8 || ch == 47u8 {
            ch
        } else if ch == 98u8 {
            8
        } else if ch == 102u8 {
            12
        } else if ch == 110u8 {
            10
        } else if ch == 114u8 {
            13
        } else if ch == 116u8 {
            9
        } else if ch == 117u8 {
            return self.parse_unicode_escape(out);
        } else {
            return Err(self.error(ErrorCode::InvalidEscape));
        };
        out.push(decoded);
        Ok(())
    }

    /// Reads the rest of a string (after its opening quote), decoding its
    /// escapes, and checks that the text is valid UTF-8.
    pub fn parse_str(&mut self) -> (r: Result<Vec<u8>, Error>)
        requires
            old(self).wf(),
        ensures
            final(self).wf(),
            final(self).input() == old(self).input(),
            old(self).index() <= final(self).index(),
            r is Err ==> r->Err_0.line >= 1,
            r is Err ==> r->Err_0.code != ErrorCode::RecursionLimitExceeded,
            match spec_parse_str(old(self).input(), old(self).index()) {
                Ok((bytes, j)) => r is Ok && r->Ok_0@ == bytes && final(self).index() == j,
                Err((e, j)) => r == Err::<Vec<u8>, Error>(e) && final(self).index() == j,
            },
    {
        let ghost s = self.input();
        let ghost i0 = self.index();
        let mut out: Vec<u8> = Vec::new();
        loop
            invariant
                self.wf(),
                self.input() == s,
                s == old(self).input(),
                i0 == old(self).index(),
                i0 <= self.index(),
                spec_str_bytes(s, self.index(), out@) == spec_str_bytes(s, i0, seq![]),
            decreases s.len() - self.index(),
        {
            if self.index >= self.slice.len() {
                return Err(self.error(ErrorCode::EofWhileParsingString));
            }
            let ch = self.slice[self.index];
            if ch == 34u8 {
                self.index = self.index + 1;
                return match utf8_check(out.as_slice()) {
                    Ok(()) => Ok(out),
                    Err(k) => {
                        proof {
                            crate::utf8::lemma_valid_up_to_bounds(out@, out@.len() as int);
                            lemma_line_start_bounds(s, self.index());
                        }
                        let p = self.position();
                        let back = out.len() - k;
                        let column = if p.column >= back { p.column - back } else { 0 };
                        Err(Error { code: ErrorCode::InvalidUnicodeCodePoint, line: p.line, column })
                    },
                };
            } else if ch == 92u8 {
                self.index = self.index + 1;
                match self.parse_escape(&mut out) {
                    Ok(()) => {},
                    Err(e) => {
                        return Err(e);
                    },
                }
            } else if ch < 0x20 {
                self.index = self.index + 1;
                return Err(self.error(ErrorCode::ControlCharacterWhileParsingString));
            } else {
                out.push(ch);
                self.index = self.index + 1;
            }
        }
    }
}

/// Appends the UTF-8 encoding of the Unicode scalar `n`.
fn push_scalar(n: u32, out: &mut Vec<u8>)
    requires
        n < 0xD800 || (0xE000 <= n <= 0x10FFFF),
    ensures
        final(out)@ == old(out)@ + vstd::utf8::encode_scalar(n),
{
    if n <= 0x7F {
        out.push((n & 0x7F) as u8);
    } else if n <= 0x7FF {
        out.push(0xC0 | ((n >> 6) & 0x1F) as u8);
        out.push(0x80 | (n & 0x3F) as u8);
    } else if n <= 0xFFFF {
        out.push(0xE0 | ((n >> 12) & 0x0F) as u8);
        out.push(0x80 | ((n >> 6) & 0x3F) as u8);
        out.push(0x80 | (n & 0x3F) as u8);
    } else {
        out.push(0xF0 | ((n >> 18) & 0x7) as u8);
        out.push(0x80 | ((n >> 12) & 0x3F) as u8);
        out.push(0x80 | ((n >> 6) & 0x3F) as u8);
        out.push(0x80 | (n & 0x3F) as u8);
    }
}

/// The value of a hexadecimal digit.
fn hex_digit(b: u8) -> (r: Option<u8>)
    ensures
        is_hex(b) ==> r == Some(hex_val(b) as u8),
        !is_hex(b) ==> r is None,
{
    if 48u8 <= b && b <= 57u8 {
        Some(b - 48u8)
    } else if 65u8 <= b && b <= 70u8 {
        Some(b - 65u8 + 10)
    } else if 97u8 <= b && b <= 102u8 {
        Some(b - 97u8 + 10)
    } else {
        None
    }
}


// Laws of string escapes.

/// A backslash escape decodes to the character JSON (RFC 8259) assigns it:
/// `\"` `\\` `\/` `\b` `\f` `\n` `\r` `\t` give the single bytes 0x22 0x5C
/// 0x2F 0x08 0x0C 0x0A 0x0D 0x09, and reading goes on right after the
/// escape's letter. Any other letter but `u` is an invalid escape.
pub proof fn lemma_escape_table(s: Seq<u8>, i: int)
    requires
        0 <= i < s.len(),
    ensures
        s[i] == 34 ==> spec_parse_escape(s, i) == Ok::<(Seq<u8>, int), Fail>((seq![0x22u8], i + 1)),
        s[i] == 92 ==> spec_parse_escape(s, i) == Ok::<(Seq<u8>, int), Fail>((seq![0x5Cu8], i + 1)),
        s[i] == 47 ==> spec_parse_escape(s, i) == Ok::<(Seq<u8>, int), Fail>((seq![0x2Fu8], i + 1)),
        s[i] == 98 ==> spec_parse_escape(s, i) == Ok::<(Seq<u8>, int), Fail>((seq![0x08u8], i + 1)),
        s[i] == 102 ==> spec_parse_escape(s, i) == Ok::<(Seq<u8>, int), Fail>((seq![0x0Cu8], i + 1)),
        s[i] == 110 ==> spec_parse_escape(s, i) == Ok::<(Seq<u8>, int), Fail>((seq![0x0Au8], i + 1)),
        s[i] == 114 ==> spec_parse_escape(s, i) == Ok::<(Seq<u8>, int), Fail>((seq![0x0Du8], i + 1)),
        s[i] == 116 ==> spec_parse_escape(s, i) == Ok::<(Seq<u8>, int), Fail>((seq![0x09u8], i + 1)),
        !(s[i] == 34 || s[i] == 92 || s[i] == 47 || s[i] == 98 || s[i] == 102 || s[i] == 110 || s[i] == 114
            || s[i] == 116 || s[i] == 117) ==> spec_parse_escape(s, i) is Err,
{
}

/// Hexadecimal digits have their usual values: `0`-`9` are 0 to 9, and
/// `A`-`F` and `a`-`f` are 10 to 15.
pub proof fn lemma_hex_digit_values()
    ensures
        forall|d: int| 0 <= d < 10 ==> is_hex((48 + d) as u8) && #[trigger] hex_val((48 + d) as u8) == d,
        forall|d: int| 0 <= d < 6 ==> is_hex((65 + d) as u8) && #[trigger] hex_val((65 + d) as u8) == 10 + d,
        forall|d: int| 0 <= d < 6 ==> is_hex((97 + d) as u8) && #[trigger] hex_val((97 + d) as u8) == 10 + d,
        forall|b: u8| is_hex(b) ==> 0 <= #[trigger] hex_val(b) < 16,
{
}

/// A `\u` escape of a character outside the surrogates decodes to the UTF-8
/// text of that one character, whose code is the escape's four hex digits.
pub proof fn lemma_unicode_escape_char(s: Seq<u8>, i: int)
    requires
        0 <= i,
        i + 5 <= s.len(),
        s[i] == 117,
        is_hex(s[i + 1]) && is_hex(s[i + 2]) && is_hex(s[i + 3]) && is_hex(s[i + 4]),
        !(0xD800 <= hex4(s, i + 1) <= 0xDFFF),
    ensures
        spec_parse_escape(s, i) matches Ok((b, j)) && j == i + 5 && vstd::utf8::decode_utf8(b).len() == 1
            && vstd::utf8::decode_utf8(b)[0] as int == hex4(s, i + 1),
{
    let n = hex4(s, i + 1);
    assert(0 <= n < 0x10000);
    lemma_one_char_utf8(n);
}

/// A `\u` escape of a high surrogate followed by a `\u` escape of a low one
/// decodes to the UTF-8 text of the one character the pair stands for in
/// UTF-16: 0x10000 plus the high ten bits, then the low ten bits.
pub proof fn lemma_surrogate_pair_escape(s: Seq<u8>, i: int)
    requires
        0 <= i,
        i + 11 <= s.len(),
        s[i] == 117,
        is_hex(s[i + 1]) && is_hex(s[i + 2]) && is_hex(s[i + 3]) && is_hex(s[i + 4]),
        0xD800 <= hex4(s, i + 1) <= 0xDBFF,
        s[i + 5] == 92 && s[i + 6] == 117,
        is_hex(s[i + 7]) && is_hex(s[i + 8]) && is_hex(s[i + 9]) && is_hex(s[i + 10]),
        0xDC00 <= hex4(s, i + 7) <= 0xDFFF,
    ensures
        spec_parse_escape(s, i) matches Ok((b, j)) && j == i + 11 && vstd::utf8::decode_utf8(b).len() == 1
            && vstd::utf8::decode_utf8(b)[0] as int == 0x10000 + (hex4(s, i + 1) - 0xD800) * 0x400 + (hex4(
            s,
            i + 7,
        ) - 0xDC00),
{
    let c = 0x10000 + (hex4(s, i + 1) - 0xD800) * 0x400 + (hex4(s, i + 7) - 0xDC00);
    lemma_one_char_utf8(c);
}

/// The UTF-8 text of one Unicode scalar decodes back to that one character.
proof fn lemma_one_char_utf8(n: int)
    requires
        0 <= n <= 0x10FFFF,
        !(0xD800 <= n <= 0xDFFF),
    ensures
        vstd::utf8::decode_utf8(utf8_of(n)).len() == 1,
        vstd::utf8::decode_utf8(utf8_of(n))[0] as int == n,
{
    let c = n as char;
    assert(c as int == n);
    let cs = seq![c];
    assert(cs.drop_first() =~= Seq::<char>::empty());
    assert(vstd::utf8::encode_utf8(cs.drop_first()) =~= Seq::<u8>::empty());
    assert(vstd::utf8::encode_utf8(cs) =~= utf8_of(n));
    vstd::utf8::encode_utf8_decode_utf8(cs);
}

/// Surrogates only come in pairs: a `\u` escape of a low surrogate is an
/// error, and so is a high surrogate not followed by a `\u` escape of a low
/// surrogate.
pub proof fn lemma_lone_surrogates_refused(s: Seq<u8>, i: int)
    requires
        0 <= i,
        i + 5 <= s.len(),
        s[i] == 117,
        is_hex(s[i + 1]) && is_hex(s[i + 2]) && is_hex(s[i + 3]) && is_hex(s[i + 4]),
    ensures
        0xDC00 <= hex4(s, i + 1) <= 0xDFFF ==> spec_parse_escape(s, i) is Err,
        0xD800 <= hex4(s, i + 1) <= 0xDBFF && !(i + 11 <= s.len() && s[i + 5] == 92 && s[i + 6] == 117 && is_hex(
            s[i + 7],
        ) && is_hex(s[i + 8]) && is_hex(s[i + 9]) && is_hex(s[i + 10]) && 0xDC00 <= hex4(s, i + 7) <= 0xDFFF)
            ==> spec_parse_escape(s, i) is Err,
{
}
} // verus!
