use vstd::prelude::*;
use vstd::string::StringSliceAdditionalSpecFns;
use crate::bytecount::{count_chars, is_leading_utf8_byte, num_chars};

verus! {

broadcast use vstd::seq_lib::group_seq_properties;

/// An error from reading a document: its message, the line (from 1) and
/// byte column (from 1) the JSON reader gave, or 0 for none, the document
/// itself when known, and a byte offset into it.
#[derive(Debug)]
pub struct DeserializeError<'a> {
    pub message: String,
    pub line: usize,
    pub column: usize,
    pub data: Option<&'a str>,
    pub pos: i64,
}

/// The index of the first newline at or after `a`, or the length.
pub open spec fn line_end(s: Seq<u8>, a: int) -> int
    decreases s.len() - a,
{
    if 0 <= a < s.len() && s[a] != 10 {
        line_end(s, a + 1)
    } else {
        a
    }
}

pub proof fn lemma_line_end(s: Seq<u8>, a: int)
    requires
        0 <= a <= s.len(),
    ensures
        a <= line_end(s, a) <= s.len(),
        line_end(s, a) < s.len() ==> s[line_end(s, a)] == 10,
    decreases s.len() - a,
{
    if a < s.len() && s[a] != 10 {
        lemma_line_end(s, a + 1);
    }
}

/// Whether byte index `c` of `s` starts a character or is the end.
pub open spec fn char_boundary(s: Seq<u8>, c: int) -> bool {
    c == 0 || c == s.len() || (0 < c < s.len() && is_leading_utf8_byte(s[c]))
}

/// The greatest character boundary of `s` at or below `c`.
pub open spec fn boundary_below(s: Seq<u8>, c: int) -> int
    decreases c,
{
    if c <= 0 {
        0
    } else if char_boundary(s, c) {
        c
    } else {
        boundary_below(s, c - 1)
    }
}

pub proof fn lemma_boundary_below(s: Seq<u8>, c: int)
    ensures
        0 <= boundary_below(s, c),
        c >= 0 ==> boundary_below(s, c) <= c,
        boundary_below(s, c) <= s.len(),
    decreases c,
{
    if c > 0 && !char_boundary(s, c) {
        lemma_boundary_below(s, c - 1);
    }
}

/// The characters of the error's line counted up to its column: those
/// before the byte column (moved back to a character boundary), and one
/// more when that reaches the line's last character.
pub open spec fn last_line_chars(line: Seq<u8>, column: int) -> int {
    if column == 0 {
        0
    } else {
        let cc = count_chars(line.subrange(0, boundary_below(line, column - 1)));
        let total = count_chars(line);
        if total >= 1 && cc == total - 1 { (cc + 1) as int } else { cc as int }
    }
}

/// The characters of the lines from the one starting at index `a` on, the
/// error's line being `k` lines on (the first is 1): whole lines before it,
/// and part of it.
pub open spec fn chars_to_error(s: Seq<u8>, a: int, k: int, column: int) -> int
    decreases s.len() - a,
{
    if !(0 <= a <= s.len()) || k < 1 {
        0
    } else {
        let e = line_end(s, a);
        proof {
            lemma_line_end(s, a);
        }
        let l = s.subrange(a, e);
        if k == 1 {
            last_line_chars(l, column)
        } else {
            count_chars(l) + if e < s.len() { chars_to_error(s, e + 1, k - 1, column) } else { 0 }
        }
    }
}

/// The position, in characters, of an error at the given line and byte
/// column of `data`: the characters before it, newlines counted.
pub open spec fn spec_error_pos(line: int, column: int, data: Option<&str>) -> int {
    match data {
        Some(d) => if line == 0 { 1 } else { chars_to_error(d.spec_bytes(), 0, line, column) + (line - 1) },
        None => 1,
    }
}

impl<'a> DeserializeError<'a> {
    /// An error that has no place in a document.
    pub fn invalid(message: String) -> (e: Self)
        ensures
            e.message@ == message@,
            e.line == 0,
            e.column == 0,
            e.data is None,
            e.pos == 0,
    {
        DeserializeError { message, line: 0, column: 0, data: None, pos: 0 }
    }

    /// An error the JSON reader found at the given line and column of `data`.
    pub fn from_json(message: String, line: usize, column: usize, data: &'a str) -> (e: Self)
        ensures
            e.message@ == message@,
            e.line == line,
            e.column == column,
            e.data == Some(data),
            e.pos == 0,
    {
        DeserializeError { message, line, column, data: Some(data), pos: 0 }
    }

    /// An error found at byte offset `pos` of `data`.
    pub fn from_yyjson(message: String, pos: i64, data: &'a str) -> (e: Self)
        ensures
            e.message@ == message@,
            e.line == 0,
            e.column == 0,
            e.data == Some(data),
            e.pos == pos,
    {
        DeserializeError { message, line: 0, column: 0, data: Some(data), pos }
    }

    /// The position of the error in the document, in characters (Python
    /// counts characters where the reader counts bytes); 1 when the error
    /// has no line.
    pub fn pos(&self) -> (p: i64)
        requires
            self.data matches Some(d) ==> self.line + d.spec_bytes().len() <= i64::MAX,
        ensures
            p == spec_error_pos(self.line as int, self.column as int, self.data),
    {
        if self.line == 0 || self.data.is_none() {
            return 1;
        }
        let data = self.data.unwrap();
        let d = data.as_bytes();
        let ghost s = d@;
        let line = self.line;
        let column = self.column;
        let mut a: usize = 0;
        let mut k: usize = 1;
        let mut sum: usize = 0;
        proof {
            lemma_count_chars_bound(s.subrange(0, 0));
        }
        loop
            invariant
                s == d@,
                s == data.spec_bytes(),
                self.data == Some(data),
                line == self.line,
                column == self.column,
                line + s.len() <= i64::MAX,
                1 <= k <= line,
                0 <= a <= s.len(),
                sum <= a,
                sum + chars_to_error(s, a as int, line - k + 1, column as int)
                    == chars_to_error(s, 0, line as int, column as int),
            decreases s.len() - a,
        {
            proof {
                lemma_line_end(s, a as int);
            }
            let mut e = a;
            while e < d.len() && d[e] != 10u8
                invariant
                    s == d@,
                    a <= e <= s.len(),
                    line_end(s, e as int) == line_end(s, a as int),
                decreases s.len() - e,
            {
                e = e + 1;
            }
            let seg = vstd::slice::slice_subrange(d, a, e);
            proof {
                lemma_count_chars_bound(seg@);
                assert(seg@ =~= s.subrange(a as int, e as int));
            }
            if k == line {
                let t = last_line(seg, column);
                proof {
                    lemma_last_line_bound(seg@, column as int);
                    assert(chars_to_error(s, a as int, line - k + 1, column as int) == t);
                }
                return sum as i64 + t as i64 + (line - 1) as i64;
            }
            sum = sum + num_chars(seg);
            if e < d.len() {
                a = e + 1;
                k = k + 1;
            } else {
                proof {
                    assert(chars_to_error(s, a as int, line - k + 1, column as int) == count_chars(seg@));
                }
                return sum as i64 + (line - 1) as i64;
            }
        }
    }

    /// The position of the error in the document, in characters: those
    /// before its byte offset; 0 when the document is not known.
    pub fn char_pos(&self) -> (p: i64)
        requires
            self.data matches Some(d) ==> 0 <= self.pos <= d.spec_bytes().len(),
        ensures
            p == match self.data {
                Some(d) => count_chars(d.spec_bytes().subrange(0, self.pos as int)) as int,
                None => 0,
            },
    {
        match self.data {
            Some(as_str) => {
                let bytes = as_str.as_bytes();
                let len: usize = bytes.len();
                proof {
                    assert(self.pos <= len);
                }
                let head = vstd::slice::slice_subrange(bytes, 0, self.pos as usize);
                proof {
                    lemma_count_chars_bound(head@);
                    assert(head@ =~= as_str.spec_bytes().subrange(0, self.pos as int));
                }
                num_chars(head) as i64
            },
            None => 0,
        }
    }
}

/// The characters of `line` counted up to byte column `column`.
fn last_line(line: &[u8], column: usize) -> (n: usize)
    ensures
        n == last_line_chars(line@, column as int),
{
    if column == 0 {
        return 0;
    }
    let mut c = column - 1;
    while c > 0 && !(c == line.len() || (c < line.len() && (line[c] & 0xC0u8) != 0x80u8))
        invariant
            c < column,
            boundary_below(line@, c as int) == boundary_below(line@, column - 1),
        decreases c,
    {
        c = c - 1;
    }
    proof {
        lemma_boundary_below(line@, c as int);
    }
    let head = vstd::slice::slice_subrange(line, 0, c);
    let chars_count = num_chars(head);
    let total = num_chars(line);
    proof {
        assert(head@ =~= line@.subrange(0, c as int));
    }
    if total >= 1 && chars_count == total - 1 {
        chars_count + 1
    } else {
        chars_count
    }
}

pub proof fn lemma_count_chars_bound(s: Seq<u8>)
    ensures
        count_chars(s) <= s.len(),
    decreases s.len(),
{
    if s.len() > 0 {
        lemma_count_chars_bound(s.drop_last());
    }
}

pub proof fn lemma_last_line_bound(line: Seq<u8>, column: int)
    ensures
        last_line_chars(line, column) <= line.len(),
{
    lemma_count_chars_bound(line);
    if column != 0 {
        lemma_boundary_below(line, column - 1);
        lemma_count_chars_bound(line.subrange(0, boundary_below(line, column - 1)));
    }
}

} // verus!
