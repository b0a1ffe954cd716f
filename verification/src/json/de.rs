use vstd::prelude::*;
use super::error::{Error, ErrorCode};
use vstd::string::StringSliceAdditionalSpecFns;
use super::read::{SliceRead, Fail, fail_at, err_at, spec_parse_str, spec_ignore_str, lemma_err_line};
use super::skip::{
    skip_value, skip_scalar, skip_open, skip_after, skip_more, skip_chain, skip_member_value, skip_resume,
    lemma_skip_value_unfold, lemma_skip_open_unfold, lemma_skip_after_unfold, lemma_skip_members_unfold,
    lemma_skip_items_chain, lemma_skip_member_value_chain,
};
use super::typed::{
    Unexpected, TypedError, TypedFail, mismatch, spec_unexpected, spec_typed_bool, spec_typed_unit, spec_typed_str,
    spec_typed_number, spec_typed_option, typed_outcome, spec_typed_open, open_depth, spec_seq_next, spec_map_next,
    spec_enum_open, enum_depth, spec_enum_close,
};
use super::read::{position_of, Position};
use super::value::{
    spec_document, Event, Token, tokens, extends, after, spec_value, spec_elements, spec_element, spec_members,
    spec_member, spec_scalar, spec_array, spec_object, stop_of, lemma_value_unfold, lemma_array_unfold,
    lemma_object_unfold, lemma_elements_unfold, lemma_element_unfold, lemma_members_unfold, lemma_member_unfold, lemma_tokens_push, lemma_extends_trans, lemma_extends_append, lemma_after_after, lemma_after_empty,
};
use super::number::{
    FloatParts, ParserNumber, is_digit, peek_pos, peek_fail, digits_end, sat_i32, float_at,
    spec_exp_digits, spec_exponent, spec_fraction, spec_after_fraction, spec_fraction_digits, spec_number_tail,
    spec_long_integer, spec_int_digits, spec_parse_integer, spec_ignore_integer,
    spec_ignore_decimal, spec_ignore_exponent, lemma_digits_end,
    scan_piece, scan_text, spec_scan_exponent, spec_scan_decimal, spec_scan_number, spec_scan_integer,
    lemma_scan_text_concat,
};

verus! {

broadcast use vstd::seq_lib::group_seq_properties, SliceRead::lemma_read_wf;

pub open spec fn is_ws(b: u8) -> bool {
    b == 32 || b == 10 || b == 9 || b == 13
}

/// The first index at or after `i` that is not JSON whitespace.
pub open spec fn ws_end(s: Seq<u8>, i: int) -> int
    decreases s.len() - i,
{
    if 0 <= i < s.len() && is_ws(s[i]) {
        ws_end(s, i + 1)
    } else {
        i
    }
}

pub proof fn lemma_ws_end(s: Seq<u8>, i: int)
    requires
        0 <= i <= s.len(),
    ensures
        i <= ws_end(s, i) <= s.len(),
        forall|k: int| i <= k < ws_end(s, i) ==> is_ws(#[trigger] s[k]),
        ws_end(s, i) < s.len() ==> !is_ws(s[ws_end(s, i)]),
    decreases s.len() - i,
{
    if i < s.len() && is_ws(s[i]) {
        lemma_ws_end(s, i + 1);
    }
}

/// The byte at index `i`, if any.
pub open spec fn byte_at(s: Seq<u8>, i: int) -> Option<u8> {
    if 0 <= i < s.len() { Some(s[i]) } else { None }
}

/// Reading the bytes `ident` from index `i` on: the index after them.
pub open spec fn spec_ident(s: Seq<u8>, i: int, ident: Seq<u8>) -> Result<int, Fail>
    decreases ident.len(),
{
    if ident.len() == 0 {
        Ok(i)
    } else if i >= s.len() {
        Err(fail_at(s, ErrorCode::EofWhileParsingValue, i, i))
    } else if s[i] != ident[0] {
        Err(fail_at(s, ErrorCode::ExpectedSomeIdent, i + 1, i + 1))
    } else {
        spec_ident(s, i + 1, ident.drop_first())
    }
}

/// Whether the value after the whitespace from index `i` on opens an array
/// or an object (`arrays`, `objects`: which of the two count): only then
/// does reading it go one level deeper.
pub open spec fn opens_container(s: Seq<u8>, i: int, arrays: bool, objects: bool) -> bool {
    let j = ws_end(s, i);
    0 <= j < s.len() && ((arrays && s[j] == 91) || (objects && s[j] == 123))
}

/// Checking that only whitespace is left from index `i` on.
pub open spec fn spec_end(s: Seq<u8>, i: int) -> Result<int, Fail> {
    let j = ws_end(s, i);
    if j < s.len() {
        Err(peek_fail(s, ErrorCode::TrailingCharacters, j))
    } else {
        Ok(j)
    }
}

/// Reading the `:` between an object key and its value.
pub open spec fn spec_object_colon(s: Seq<u8>, i: int) -> Result<int, Fail> {
    let j = ws_end(s, i);
    if j >= s.len() {
        Err(peek_fail(s, ErrorCode::EofWhileParsingObject, j))
    } else if s[j] == 58 {
        Ok(j + 1)
    } else {
        Err(peek_fail(s, ErrorCode::ExpectedColon, j))
    }
}

/// Reading the `]` that ends an array.
pub open spec fn spec_end_seq(s: Seq<u8>, i: int) -> Result<int, Fail> {
    let j = ws_end(s, i);
    if j >= s.len() {
        Err(peek_fail(s, ErrorCode::EofWhileParsingList, j))
    } else if s[j] == 93 {
        Ok(j + 1)
    } else if s[j] == 44 {
        let k = ws_end(s, j + 1);
        if k < s.len() && s[k] == 93 {
            Err(peek_fail(s, ErrorCode::TrailingComma, k))
        } else {
            Err(peek_fail(s, ErrorCode::TrailingCharacters, k))
        }
    } else {
        Err(peek_fail(s, ErrorCode::TrailingCharacters, j))
    }
}

/// Reading the `}` that ends an object.
pub open spec fn spec_end_map(s: Seq<u8>, i: int) -> Result<int, Fail> {
    let j = ws_end(s, i);
    if j >= s.len() {
        Err(peek_fail(s, ErrorCode::EofWhileParsingObject, j))
    } else if s[j] == 125 {
        Ok(j + 1)
    } else if s[j] == 44 {
        Err(peek_fail(s, ErrorCode::TrailingComma, j))
    } else {
        Err(peek_fail(s, ErrorCode::TrailingCharacters, j))
    }
}


/// Reading a number, as `Number::from_str` does: an optional minus sign,
/// then a number that must reach the end of the input.
pub open spec fn spec_any_signed_number(s: Seq<u8>, i: int) -> Result<(ParserNumber, int), Fail> {
    if i >= s.len() {
        Err(peek_fail(s, ErrorCode::EofWhileParsingValue, i))
    } else {
        let v = if s[i] == 45 {
            spec_parse_integer(s, false, i + 1)
        } else if is_digit(s[i]) {
            spec_parse_integer(s, true, i)
        } else {
            Err(peek_fail(s, ErrorCode::InvalidNumber, i))
        };
        let at = match v {
            Ok((_, k)) => k,
            Err((_, k)) => k,
        };
        if at < s.len() {
            Err(peek_fail(s, ErrorCode::InvalidNumber, at))
        } else {
            v
        }
    }
}

/// The nesting depth that a failed read leaves used up: one level when it
/// stopped at the depth limit.
pub open spec fn recursion_cost(r: Result<(), Error>) -> int {
    match r {
        Err(e) => if e.code == ErrorCode::RecursionLimitExceeded { 1 } else { 0 },
        Ok(_) => 0,
    }
}

/// A read whose events go to a list: on success the events appended are the
/// tokens read and the reader is just after them; on failure the error is
/// the one the grammar gives, where it says the reader stops, and the list
/// only grew.
pub open spec fn outcome(
    r: Result<(), Error>,
    index: int,
    before: Seq<Token>,
    now: Seq<Token>,
    spec: Result<(Seq<Token>, int), Fail>,
) -> bool {
    match spec {
        Ok((t, j)) => r is Ok && index == j && now == before + t,
        Err((e, j)) => r == Err::<(), Error>(e) && index == j && extends(before, now),
    }
}

/// The JSON deserializer: a reader over the input, and the nesting depth
/// still allowed.
pub struct Deserializer<'a> {
    read: SliceRead<'a>,
    remaining_depth: u8,
    disable_recursion_limit: bool,
    nan_as_null: bool,
}

impl<'a> Deserializer<'a> {
    pub closed spec fn input(&self) -> Seq<u8> {
        self.read.input()
    }

    pub closed spec fn index(&self) -> int {
        self.read.index()
    }

    pub closed spec fn wf(&self) -> bool {
        self.read.wf()
    }

    /// A well-formed deserializer stands within its input.
    pub proof fn lemma_index_in_input(&self)
        requires
            self.wf(),
        ensures
            0 <= self.index() <= self.input().len(),
    {
    }

    /// The nesting depth still allowed.
    pub closed spec fn depth(&self) -> int {
        self.remaining_depth as int
    }

    /// Whether nesting depth is unlimited.
    pub closed spec fn unbounded(&self) -> bool {
        self.disable_recursion_limit
    }

    /// Whether the bare token `nan` is read as `null`.
    pub closed spec fn nan_null(&self) -> bool {
        self.nan_as_null
    }

    /// What reading bytes keeps: the input and the depth settings; the index
    /// only moves forward.
    pub open spec fn keeps(self, prev: Self) -> bool {
        &&& self.wf()
        &&& self.input() == prev.input()
        &&& prev.index() <= self.index()
        &&& self.depth() == prev.depth()
        &&& self.unbounded() == prev.unbounded()
        &&& self.nan_null() == prev.nan_null()
    }

    /// A deserializer over the given reader, allowing 128 levels of nesting.
    pub fn new(read: SliceRead<'a>) -> (de: Self)
        requires
            read.wf(),
        ensures
            de.wf(),
            de.input() == read.input(),
            de.index() == read.index(),
            de.depth() == 128,
            !de.unbounded(),
            !de.nan_null(),
    {
        Deserializer { read, remaining_depth: 128, disable_recursion_limit: false, nan_as_null: false }
    }

    /// A deserializer over a byte slice.
    pub fn from_slice(bytes: &'a [u8]) -> (de: Self)
        requires
            bytes@.len() <= isize::MAX,
        ensures
            de.wf(),
            de.input() == bytes@,
            de.index() == 0,
            de.depth() == 128,
            !de.unbounded(),
            !de.nan_null(),
    {
        Deserializer::new(SliceRead::new(bytes))
    }

    /// A deserializer over the UTF-8 bytes of a string.
    pub fn from_str(s: &'a str) -> (de: Self)
        requires
            s.spec_bytes().len() <= isize::MAX,
        ensures
            de.wf(),
            de.input() == s.spec_bytes(),
            de.index() == 0,
            de.depth() == 128,
            !de.unbounded(),
            !de.nan_null(),
    {
        Deserializer::from_slice(s.as_bytes())
    }

    /// A stream of the values that follow, read with this deserializer and
    /// its depth settings, from where it stands.
    pub fn into_iter(self) -> (st: StreamDeserializer<'a>)
        requires
            self.wf(),
        ensures
            st.wf(),
            st.input() == self.input(),
            st.index() == self.index(),
            st.offset() == self.index(),
            st.depth() == self.depth(),
            st.unbounded() == self.unbounded(),
            st.nan_null() == self.nan_null(),
    {
        let offset = self.read.byte_offset();
        StreamDeserializer { de: self, offset }
    }

    /// Lifts the limit on nesting depth.
    pub fn disable_recursion_limit(&mut self)
        requires
            old(self).wf(),
        ensures
            final(self).wf(),
            final(self).input() == old(self).input(),
            final(self).index() == old(self).index(),
            final(self).depth() == old(self).depth(),
            final(self).unbounded(),
            final(self).nan_null() == old(self).nan_null(),
    {
        self.disable_recursion_limit = true;
    }

    /// Reads the bare token `nan` as `null` from now on.
    pub fn read_nan_as_null(&mut self)
        requires
            old(self).wf(),
        ensures
            final(self).wf(),
            final(self).input() == old(self).input(),
            final(self).index() == old(self).index(),
            final(self).depth() == old(self).depth(),
            final(self).unbounded() == old(self).unbounded(),
            final(self).nan_null(),
    {
        self.nan_as_null = true;
    }

    /// The number of bytes read so far.
    pub fn byte_offset(&self) -> (n: usize)
        requires
            self.wf(),
        ensures
            n == self.index(),
    {
        self.read.byte_offset()
    }

    fn peek(&self) -> (b: Option<u8>)
        requires
            self.wf(),
        ensures
            b == byte_at(self.input(), self.index()),
    {
        self.read.peek()
    }

    fn peek_or_null(&self) -> (b: u8)
        requires
            self.wf(),
        ensures
            b == match byte_at(self.input(), self.index()) { Some(c) => c, None => 0u8 },
    {
        match self.read.peek() {
            Some(b) => b,
            None => 0,
        }
    }

    fn eat_char(&mut self)
        requires
            old(self).wf(),
            old(self).index() < old(self).input().len(),
        ensures
            final(self).wf(),
            final(self).input() == old(self).input(),
            final(self).index() == old(self).index() + 1,
            final(self).depth() == old(self).depth(),
            final(self).unbounded() == old(self).unbounded(),
            final(self).nan_null() == old(self).nan_null(),
    {
        self.read.discard();
    }

    fn next_char(&mut self) -> (b: Option<u8>)
        requires
            old(self).wf(),
        ensures
            final(self).wf(),
            final(self).input() == old(self).input(),
            b == byte_at(old(self).input(), old(self).index()),
            final(self).index() == if b is Some { old(self).index() + 1 } else { old(self).index() },
            final(self).depth() == old(self).depth(),
            final(self).unbounded() == old(self).unbounded(),
            final(self).nan_null() == old(self).nan_null(),
    {
        self.read.next()
    }

    fn next_char_or_null(&mut self) -> (b: u8)
        requires
            old(self).wf(),
        ensures
            final(self).wf(),
            final(self).input() == old(self).input(),
            b == match byte_at(old(self).input(), old(self).index()) { Some(c) => c, None => 0u8 },
            final(self).index() == if old(self).index() < old(self).input().len() {
                old(self).index() + 1
            } else {
                old(self).index()
            },
            final(self).depth() == old(self).depth(),
            final(self).unbounded() == old(self).unbounded(),
            final(self).nan_null() == old(self).nan_null(),
    {
        match self.read.next() {
            Some(b) => b,
            None => 0,
        }
    }

    /// The error caused by the byte most recently read.
    fn error(&self, code: ErrorCode) -> (e: Error)
        requires
            self.wf(),
        ensures
            e == err_at(self.input(), code, self.index()),
            e.line >= 1,
    {
        proof {
            lemma_err_line(self.input(), code, self.index());
        }
        self.read.error(code)
    }

    /// The error caused by the byte that `peek` shows.
    fn peek_error(&self, code: ErrorCode) -> (e: Error)
        requires
            self.wf(),
        ensures
            e == err_at(self.input(), code, peek_pos(self.input(), self.index())),
            e.line >= 1,
    {
        proof {
            lemma_err_line(self.input(), code, peek_pos(self.input(), self.index()));
        }
        let p = self.read.peek_position();
        Error { code, line: p.line, column: p.column }
    }

    /// Gives an error without a position (line 0) the current position.
    pub fn fix_position(&self, err: Error) -> (e: Error)
        requires
            self.wf(),
        ensures
            err.line == 0 ==> e == err_at(self.input(), err.code, self.index()),
            err.line != 0 ==> e == err,
    {
        if err.line == 0 {
            self.error(err.code)
        } else {
            err
        }
    }

    /// Skips whitespace; returns the next byte, if any, without reading it.
    /// That byte is not whitespace, so a second call stands still and
    /// returns it again (see `lemma_ws_idempotent`); `None` once the input
    /// is used up.
    pub fn parse_whitespace(&mut self) -> (b: Option<u8>)
        requires
            old(self).wf(),
        ensures
            final(self).wf(),
            final(self).input() == old(self).input(),
            final(self).index() == ws_end(old(self).input(), old(self).index()),
            old(self).index() <= final(self).index(),
            b == byte_at(old(self).input(), final(self).index()),
            b matches Some(c) ==> !is_ws(c),
            b is None ==> final(self).index() == final(self).input().len(),
            final(self).depth() == old(self).depth(),
            final(self).unbounded() == old(self).unbounded(),
            final(self).nan_null() == old(self).nan_null(),
    {
        let ghost s = self.input();
        let ghost i0 = self.index();
        proof {
            lemma_ws_end(s, i0);
        }
        loop
            invariant
                self.wf(),
                self.input() == s,
                s == old(self).input(),
                i0 == old(self).index(),
                i0 <= self.index(),
                ws_end(s, self.index()) == ws_end(s, i0),
                self.depth() == old(self).depth(),
                self.unbounded() == old(self).unbounded(),
                self.nan_null() == old(self).nan_null(),
            decreases s.len() - self.index(),
        {
            match self.peek() {
                Some(b) => {
                    if b == 32u8 || b == 10u8 || b == 9u8 || b == 13u8 {
                        self.eat_char();
                    } else {
                        return Some(b);
                    }
                },
                None => {
                    return None;
                },
            }
        }
    }

    /// Checks that only whitespace is left, as it must be after a value has
    /// been read.
    pub fn end(&mut self) -> (r: Result<(), Error>)
        requires
            old(self).wf(),
        ensures
            final(self).wf(),
            final(self).input() == old(self).input(),
            final(self).depth() == old(self).depth(),
            final(self).unbounded() == old(self).unbounded(),
            final(self).nan_null() == old(self).nan_null(),
            match spec_end(old(self).input(), old(self).index()) {
                Ok(j) => r is Ok && final(self).index() == j,
                Err((e, j)) => r == Err::<(), Error>(e) && final(self).index() == j,
            },
    {
        match self.parse_whitespace() {
            Some(_) => Err(self.peek_error(ErrorCode::TrailingCharacters)),
            None => Ok(()),
        }
    }

    /// Reads the bytes `ident`, which must come next.
    fn parse_ident(&mut self, ident: &[u8]) -> (r: Result<(), Error>)
        requires
            old(self).wf(),
        ensures
            final(self).wf(),
            final(self).input() == old(self).input(),
            final(self).depth() == old(self).depth(),
            final(self).unbounded() == old(self).unbounded(),
            final(self).nan_null() == old(self).nan_null(),
            old(self).index() <= final(self).index(),
            r is Err ==> r->Err_0.line >= 1,
            r is Err ==> r->Err_0.code != ErrorCode::RecursionLimitExceeded,
            match spec_ident(old(self).input(), old(self).index(), ident@) {
                Ok(j) => r is Ok && final(self).index() == j,
                Err((e, j)) => r == Err::<(), Error>(e) && final(self).index() == j,
            },
    {
        let ghost s = self.input();
        let ghost i0 = self.index();
        let mut k: usize = 0;
        assert(ident@.subrange(0, ident@.len() as int) =~= ident@);
        while k < ident.len()
            invariant
                self.wf(),
                self.input() == s,
                s == old(self).input(),
                i0 == old(self).index(),
                i0 <= self.index(),
                k <= ident.len(),
                spec_ident(s, self.index(), ident@.subrange(k as int, ident@.len() as int))
                    == spec_ident(s, i0, ident@),
                self.depth() == old(self).depth(),
                self.unbounded() == old(self).unbounded(),
                self.nan_null() == old(self).nan_null(),
            decreases ident.len() - k,
        {
            assert(ident@.subrange(k as int, ident@.len() as int).drop_first()
                =~= ident@.subrange(k + 1, ident@.len() as int));
            match self.next_char() {
                None => {
                    return Err(self.error(ErrorCode::EofWhileParsingValue));
                },
                Some(next) => {
                    if next != ident[k] {
                        return Err(self.error(ErrorCode::ExpectedSomeIdent));
                    }
                },
            }
            k = k + 1;
        }
        assert(ident@.subrange(k as int, ident@.len() as int) =~= Seq::<u8>::empty());
        Ok(())
    }

    /// Reads the rest of an integer too long for 64 bits; each further digit
    /// raises the exponent.
    fn parse_long_integer(&mut self, positive: bool, significand: u64, exponent: i32, start: usize) -> (r: Result<ParserNumber, Error>)
        requires
            old(self).wf(),
            start <= old(self).index(),
        ensures
            final(self).keeps(*old(self)),
            r is Err ==> r->Err_0.line >= 1,
            r is Err ==> r->Err_0.code != ErrorCode::RecursionLimitExceeded,
            match spec_long_integer(old(self).input(), positive, significand as int, exponent as int, old(self).index(), start as int) {
                Ok((n, j)) => r == Ok::<ParserNumber, Error>(n) && final(self).index() == j,
                Err((e, j)) => r == Err::<ParserNumber, Error>(e) && final(self).index() == j,
            },
        decreases old(self).input().len() - old(self).index(),
    {
        let mut exp = exponent;
        let ghost s = self.input();
        let ghost target = spec_long_integer(s, positive, significand as int, exponent as int, self.index(), start as int);
        loop
            invariant
                self.keeps(*old(self)),
                s == self.input(),
                s == old(self).input(),
                start <= self.index(),
                target == spec_long_integer(s, positive, significand as int, exponent as int, old(self).index(), start as int),
                spec_long_integer(s, positive, significand as int, exp as int, self.index(), start as int) == target,
            decreases s.len() - self.index(),
        {
            let c = self.peek_or_null();
            if 48u8 <= c && c <= 57u8 {
                self.eat_char();
                exp = if exp == i32::MAX { i32::MIN } else { exp + 1 };
            } else if c == 46u8 {
                return self.parse_decimal(positive, significand, exp, start);
            } else if c == 101u8 || c == 69u8 {
                return self.parse_exponent(positive, significand, exp, start);
            } else {
                let end = self.read.byte_offset();
                return Ok(ParserNumber::F64(FloatParts { positive, significand, exponent: exp, start, end }));
            }
        }
    }

    /// Reads an integer whose first digit comes next (its minus sign, if any,
    /// just read), and what follows it.
    fn parse_integer(&mut self, positive: bool) -> (r: Result<ParserNumber, Error>)
        requires
            old(self).wf(),
            positive || old(self).index() >= 1,
        ensures
            final(self).keeps(*old(self)),
            r is Err ==> r->Err_0.line >= 1,
            r is Err ==> r->Err_0.code != ErrorCode::RecursionLimitExceeded,
            r is Ok ==> final(self).index() > old(self).index(),
            match spec_parse_integer(old(self).input(), positive, old(self).index()) {
                Ok((n, j)) => r == Ok::<ParserNumber, Error>(n) && final(self).index() == j,
                Err((e, j)) => r == Err::<ParserNumber, Error>(e) && final(self).index() == j,
            },
    {
        let ghost s = self.input();
        let i0 = self.read.byte_offset();
        let start = if positive { i0 } else { i0 - 1 };
        let next = match self.next_char() {
            Some(b) => b,
            None => {
                return Err(self.error(ErrorCode::EofWhileParsingValue));
            },
        };
        if next == 48u8 {
            let p = self.peek_or_null();
            if 48u8 <= p && p <= 57u8 {
                return Err(self.peek_error(ErrorCode::InvalidNumber));
            }
            self.parse_number(positive, 0, start)
        } else if 49u8 <= next && next <= 57u8 {
            let mut res: u64 = (next - 48u8) as u64;
            let ghost target = spec_int_digits(s, positive, res as int, self.index(), start as int);
            assert(target == spec_parse_integer(s, positive, i0 as int));
            loop
                invariant
                    self.keeps(*old(self)),
                    s == self.input(),
                    s == old(self).input(),
                    start <= self.index(),
                    target == spec_parse_integer(s, positive, old(self).index()),
                    spec_int_digits(s, positive, res as int, self.index(), start as int) == target,
                decreases s.len() - self.index(),
            {
                let c = self.peek_or_null();
                if 48u8 <= c && c <= 57u8 {
                    self.eat_char();
                    let digit = (c - 48u8) as u64;
                    let overflow = res >= 1844674407370955161u64 && (res > 1844674407370955161u64 || digit > 5);
                    assert(overflow <==> res * 10 + digit > u64::MAX) by (nonlinear_arith)
                        requires
                            overflow == (res >= 1844674407370955161u64 && (res > 1844674407370955161u64 || digit > 5)),
                            digit <= 9,
                    ;
                    if overflow {
                        return self.parse_long_integer(positive, res, 1, start);
                    }
                    res = res * 10 + digit;
                } else {
                    return self.parse_number(positive, res, start);
                }
            }
        } else {
            Err(self.error(ErrorCode::InvalidNumber))
        }
    }

    /// What follows the integer digits of a number that fits in 64 bits.
    fn parse_number(&mut self, positive: bool, significand: u64, start: usize) -> (r: Result<ParserNumber, Error>)
        requires
            old(self).wf(),
            start <= old(self).index(),
        ensures
            final(self).keeps(*old(self)),
            r is Err ==> r->Err_0.line >= 1,
            r is Err ==> r->Err_0.code != ErrorCode::RecursionLimitExceeded,
            match spec_number_tail(old(self).input(), positive, significand as int, old(self).index(), start as int) {
                Ok((n, j)) => r == Ok::<ParserNumber, Error>(n) && final(self).index() == j,
                Err((e, j)) => r == Err::<ParserNumber, Error>(e) && final(self).index() == j,
            },
    {
        let c = self.peek_or_null();
        if c == 46u8 {
            self.parse_decimal(positive, significand, 0, start)
        } else if c == 101u8 || c == 69u8 {
            self.parse_exponent(positive, significand, 0, start)
        } else if positive {
            Ok(ParserNumber::U64(significand))
        } else if significand <= 0x8000_0000_0000_0000u64 {
            let neg: i64 = if significand == 0x8000_0000_0000_0000u64 {
                i64::MIN
            } else {
                -(significand as i64)
            };
            Ok(ParserNumber::I64(neg))
        } else {
            let end = self.read.byte_offset();
            Ok(ParserNumber::F64(FloatParts { positive: false, significand, exponent: 0, start, end }))
        }
    }

    /// Reads a fraction, whose `.` comes next.
    fn parse_decimal(&mut self, positive: bool, significand: u64, exponent: i32, start: usize) -> (r: Result<ParserNumber, Error>)
        requires
            old(self).wf(),
            old(self).index() < old(self).input().len(),
            start <= old(self).index(),
        ensures
            final(self).keeps(*old(self)),
            r is Err ==> r->Err_0.line >= 1,
            r is Err ==> r->Err_0.code != ErrorCode::RecursionLimitExceeded,
            match spec_fraction(old(self).input(), positive, significand as int, exponent as int, old(self).index(), start as int) {
                Ok((n, j)) => r == Ok::<ParserNumber, Error>(n) && final(self).index() == j,
                Err((e, j)) => r == Err::<ParserNumber, Error>(e) && final(self).index() == j,
            },
    {
        let ghost s = self.input();
        self.eat_char();
        let mut sig = significand;
        let mut exp = exponent;
        let mut at_least_one_digit = false;
        let ghost target = spec_fraction_digits(s, positive, significand as int, exponent as int, self.index(), false, start as int);
        loop
            invariant
                self.keeps(*old(self)),
                s == self.input(),
                s == old(self).input(),
                start <= self.index(),
                target == spec_fraction(s, positive, significand as int, exponent as int, old(self).index(), start as int),
                spec_fraction_digits(s, positive, sig as int, exp as int, self.index(), at_least_one_digit, start as int) == target,
            decreases s.len() - self.index(),
        {
            let c = self.peek_or_null();
            if 48u8 <= c && c <= 57u8 {
                self.eat_char();
                let digit = (c - 48u8) as u64;
                let overflow = sig >= 1844674407370955161u64 && (sig > 1844674407370955161u64 || digit > 5);
                assert(overflow <==> sig * 10 + digit > u64::MAX) by (nonlinear_arith)
                    requires
                        overflow == (sig >= 1844674407370955161u64 && (sig > 1844674407370955161u64 || digit > 5)),
                        digit <= 9,
                ;
                if overflow {
                    self.skip_digits();
                    return self.parse_after_fraction(positive, sig, exp, start);
                }
                sig = sig * 10 + digit;
                exp = if exp == i32::MIN { i32::MAX } else { exp - 1 };
                at_least_one_digit = true;
            } else if !at_least_one_digit {
                match self.peek() {
                    Some(_) => {
                        return Err(self.peek_error(ErrorCode::InvalidNumber));
                    },
                    None => {
                        return Err(self.peek_error(ErrorCode::EofWhileParsingValue));
                    },
                }
            } else {
                return self.parse_after_fraction(positive, sig, exp, start);
            }
        }
    }

    /// After the digits of a number with a fraction: an exponent may follow.
    fn parse_after_fraction(&mut self, positive: bool, significand: u64, exponent: i32, start: usize) -> (r: Result<ParserNumber, Error>)
        requires
            old(self).wf(),
            start <= old(self).index(),
        ensures
            final(self).keeps(*old(self)),
            r is Err ==> r->Err_0.line >= 1,
            r is Err ==> r->Err_0.code != ErrorCode::RecursionLimitExceeded,
            match spec_after_fraction(old(self).input(), positive, significand as int, exponent as int, old(self).index(), start as int) {
                Ok((n, j)) => r == Ok::<ParserNumber, Error>(n) && final(self).index() == j,
                Err((e, j)) => r == Err::<ParserNumber, Error>(e) && final(self).index() == j,
            },
    {
        let c = self.peek_or_null();
        if c == 101u8 || c == 69u8 {
            self.parse_exponent(positive, significand, exponent, start)
        } else {
            let end = self.read.byte_offset();
            Ok(ParserNumber::F64(FloatParts { positive, significand, exponent, start, end }))
        }
    }

    /// Skips digits.
    fn skip_digits(&mut self)
        requires
            old(self).wf(),
        ensures
            final(self).keeps(*old(self)),
            final(self).index() == digits_end(old(self).input(), old(self).index()),
            old(self).index() <= final(self).index(),
    {
        let ghost s = self.input();
        let ghost i0 = self.index();
        proof {
            lemma_digits_end(s, i0);
        }
        loop
            invariant
                self.keeps(*old(self)),
                s == self.input(),
                i0 == old(self).index(),
                i0 <= self.index(),
                digits_end(s, i0) <= s.len(),
                digits_end(s, self.index()) == digits_end(s, i0),
            decreases s.len() - self.index(),
        {
            let c = self.peek_or_null();
            if 48u8 <= c && c <= 57u8 {
                self.eat_char();
            } else {
                return;
            }
        }
    }

    /// Reads an exponent, whose `e` or `E` comes next.
    fn parse_exponent(&mut self, positive: bool, significand: u64, starting_exp: i32, start: usize) -> (r: Result<ParserNumber, Error>)
        requires
            old(self).wf(),
            old(self).index() < old(self).input().len(),
            start <= old(self).index(),
        ensures
            final(self).keeps(*old(self)),
            r is Err ==> r->Err_0.line >= 1,
            r is Err ==> r->Err_0.code != ErrorCode::RecursionLimitExceeded,
            match spec_exponent(old(self).input(), positive, significand as int, starting_exp as int, old(self).index(), start as int) {
                Ok((n, j)) => r == Ok::<ParserNumber, Error>(n) && final(self).index() == j,
                Err((e, j)) => r == Err::<ParserNumber, Error>(e) && final(self).index() == j,
            },
    {
        let ghost s = self.input();
        let ghost k0 = self.index();
        self.eat_char();
        let p = self.peek_or_null();
        let positive_exp = if p == 43u8 {
            self.eat_char();
            true
        } else if p == 45u8 {
            self.eat_char();
            false
        } else {
            true
        };
        let next = match self.next_char() {
            Some(b) => b,
            None => {
                return Err(self.error(ErrorCode::EofWhileParsingValue));
            },
        };
        if !(48u8 <= next && next <= 57u8) {
            return Err(self.error(ErrorCode::InvalidNumber));
        }
        let mut exp: i32 = (next - 48u8) as i32;
        let ghost target = spec_exp_digits(s, positive, significand as int, starting_exp as int, positive_exp, exp as int, self.index(), start as int);
        assert(target == spec_exponent(s, positive, significand as int, starting_exp as int, k0, start as int));
        loop
            invariant
                self.keeps(*old(self)),
                s == self.input(),
                s == old(self).input(),
                start <= self.index(),
                target == spec_exponent(s, positive, significand as int, starting_exp as int, old(self).index(), start as int),
                0 <= exp,
                spec_exp_digits(s, positive, significand as int, starting_exp as int, positive_exp, exp as int, self.index(), start as int) == target,
            decreases s.len() - self.index(),
        {
            let c = self.peek_or_null();
            if 48u8 <= c && c <= 57u8 {
                self.eat_char();
                let digit = (c - 48u8) as i32;
                let overflow = exp >= 214748364i32 && (exp > 214748364i32 || digit > 7);
                assert(overflow <==> exp * 10 + digit > i32::MAX) by (nonlinear_arith)
                    requires
                        overflow == (exp >= 214748364i32 && (exp > 214748364i32 || digit > 7)),
                        0 <= digit <= 9,
                        0 <= exp,
                ;
                if overflow {
                    return self.parse_exponent_overflow(positive, significand, positive_exp, start);
                }
                exp = exp * 10 + digit;
            } else {
                let final_exp = if positive_exp {
                    saturating_add_i32(starting_exp, exp)
                } else {
                    saturating_sub_i32(starting_exp, exp)
                };
                let end = self.read.byte_offset();
                return Ok(ParserNumber::F64(FloatParts { positive, significand, exponent: final_exp, start, end }));
            }
        }
    }

    /// Reads a number, as `parse_integer` does.
    fn parse_any_number(&mut self, positive: bool) -> (r: Result<ParserNumber, Error>)
        requires
            old(self).wf(),
            positive || old(self).index() >= 1,
        ensures
            final(self).keeps(*old(self)),
            r is Err ==> r->Err_0.line >= 1,
            r is Err ==> r->Err_0.code != ErrorCode::RecursionLimitExceeded,
            r is Ok ==> final(self).index() > old(self).index(),
            match spec_parse_integer(old(self).input(), positive, old(self).index()) {
                Ok((n, j)) => r == Ok::<ParserNumber, Error>(n) && final(self).index() == j,
                Err((e, j)) => r == Err::<ParserNumber, Error>(e) && final(self).index() == j,
            },
    {
        self.parse_integer(positive)
    }

    /// Reads a number with an optional minus sign that must take up the rest
    /// of the input.
    pub fn parse_any_signed_number(&mut self) -> (r: Result<ParserNumber, Error>)
        requires
            old(self).wf(),
        ensures
            final(self).keeps(*old(self)),
            r is Err ==> r->Err_0.line >= 1,
            r is Err ==> r->Err_0.code != ErrorCode::RecursionLimitExceeded,
            match spec_any_signed_number(old(self).input(), old(self).index()) {
                Ok((n, j)) => r == Ok::<ParserNumber, Error>(n) && final(self).index() == j,
                Err((e, j)) => r == Err::<ParserNumber, Error>(e) && final(self).index() == j,
            },
    {
        let ghost s = self.input();
        let ghost i = self.index();
        let peek = match self.peek() {
            Some(b) => b,
            None => {
                return Err(self.peek_error(ErrorCode::EofWhileParsingValue));
            },
        };
        let value = if peek == 45u8 {
            self.eat_char();
            self.parse_any_number(false)
        } else if 48u8 <= peek && peek <= 57u8 {
            self.parse_any_number(true)
        } else {
            Err(self.peek_error(ErrorCode::InvalidNumber))
        };
        let value = match self.peek() {
            Some(_) => Err(self.peek_error(ErrorCode::InvalidNumber)),
            None => value,
        };
        match value {
            Ok(v) => Ok(v),
            Err(err) => {
                proof {
                    lemma_err_line(s, err.code, self.index());
                    lemma_err_line(s, err.code, peek_pos(s, self.index()));
                    lemma_err_line(s, ErrorCode::InvalidNumber, peek_pos(s, i));
                }
                Err(self.fix_position(err))
            },
        }
    }

    /// Reads the `:` between an object key and its value.
    pub fn parse_object_colon(&mut self) -> (r: Result<(), Error>)
        requires
            old(self).wf(),
        ensures
            final(self).keeps(*old(self)),
            r is Err ==> r->Err_0.line >= 1,
            r is Err ==> r->Err_0.code != ErrorCode::RecursionLimitExceeded,
            match spec_object_colon(old(self).input(), old(self).index()) {
                Ok(j) => r is Ok && final(self).index() == j,
                Err((e, j)) => r == Err::<(), Error>(e) && final(self).index() == j,
            },
    {
        match self.parse_whitespace() {
            Some(b) => {
                if b == 58u8 {
                    self.eat_char();
                    Ok(())
                } else {
                    Err(self.peek_error(ErrorCode::ExpectedColon))
                }
            },
            None => Err(self.peek_error(ErrorCode::EofWhileParsingObject)),
        }
    }

    /// Reads the `]` that ends an array.
    fn end_seq(&mut self) -> (r: Result<(), Error>)
        requires
            old(self).wf(),
        ensures
            final(self).keeps(*old(self)),
            r is Err ==> r->Err_0.line >= 1,
            r is Err ==> r->Err_0.code != ErrorCode::RecursionLimitExceeded,
            match spec_end_seq(old(self).input(), old(self).index()) {
                Ok(j) => r is Ok && final(self).index() == j,
                Err((e, j)) => r == Err::<(), Error>(e) && final(self).index() == j,
            },
    {
        match self.parse_whitespace() {
            Some(b) => {
                if b == 93u8 {
                    self.eat_char();
                    Ok(())
                } else if b == 44u8 {
                    self.eat_char();
                    match self.parse_whitespace() {
                        Some(c) => {
                            if c == 93u8 {
                                Err(self.peek_error(ErrorCode::TrailingComma))
                            } else {
                                Err(self.peek_error(ErrorCode::TrailingCharacters))
                            }
                        },
                        None => Err(self.peek_error(ErrorCode::TrailingCharacters)),
                    }
                } else {
                    Err(self.peek_error(ErrorCode::TrailingCharacters))
                }
            },
            None => Err(self.peek_error(ErrorCode::EofWhileParsingList)),
        }
    }

    /// Reads the `}` that ends an object.
    fn end_map(&mut self) -> (r: Result<(), Error>)
        requires
            old(self).wf(),
        ensures
            final(self).keeps(*old(self)),
            r is Err ==> r->Err_0.line >= 1,
            r is Err ==> r->Err_0.code != ErrorCode::RecursionLimitExceeded,
            match spec_end_map(old(self).input(), old(self).index()) {
                Ok(j) => r is Ok && final(self).index() == j,
                Err((e, j)) => r == Err::<(), Error>(e) && final(self).index() == j,
            },
    {
        match self.parse_whitespace() {
            Some(b) => {
                if b == 125u8 {
                    self.eat_char();
                    Ok(())
                } else if b == 44u8 {
                    Err(self.peek_error(ErrorCode::TrailingComma))
                } else {
                    Err(self.peek_error(ErrorCode::TrailingCharacters))
                }
            },
            None => Err(self.peek_error(ErrorCode::EofWhileParsingObject)),
        }
    }

    /// Skips one JSON value, checking its syntax; arrays and objects may nest
    /// to any depth, the open ones kept on a stack.
    pub fn ignore_value(&mut self) -> (r: Result<(), Error>)
        requires
            old(self).wf(),
        ensures
            final(self).keeps(*old(self)),
            r is Err ==> r->Err_0.line >= 1,
            match skip_value(old(self).input(), old(self).index()) {
                Ok(q) => r is Ok && final(self).index() == q,
                Err((e, q)) => r == Err::<(), Error>(e) && final(self).index() == q,
            },
    {
        let ghost s = self.input();
        let mut scratch: Vec<u8> = Vec::new();
        let mut enclosing: Option<u8> = None;
        loop
            invariant
                self.keeps(*old(self)),
                s == self.input(),
                s == old(self).input(),
                skip_chain(s, skip_value(s, self.index()), stack_of(scratch@, enclosing))
                    == skip_value(s, old(self).index()),
            decreases s.len() - self.index(),
        {
            let ghost i = self.index();
            let ghost stack = stack_of(scratch@, enclosing);
            proof {
                lemma_skip_value_unfold(s, i);
                lemma_ws_end(s, i);
            }
            let peek = match self.parse_whitespace() {
                Some(b) => b,
                None => {
                    return Err(self.peek_error(ErrorCode::EofWhileParsingValue));
                },
            };
            let mut accept_comma: bool = true;
            let mut frame: u8 = 0;
            if peek == 91u8 || peek == 123u8 {
                match enclosing {
                    Some(f) => {
                        scratch.push(f);
                    },
                    None => {},
                }
                enclosing = None;
                self.eat_char();
                accept_comma = false;
                frame = peek;
                proof {
                    assert(scratch@ =~= stack);
                }
            } else {
                match self.ignore_scalar() {
                    Ok(()) => {},
                    Err(e) => {
                        return Err(e);
                    },
                }
                match enclosing {
                    Some(f) => {
                        frame = f;
                        enclosing = None;
                        proof {
                            assert(stack.drop_last() =~= scratch@);
                        }
                    },
                    None => {
                        let ghost before_pop = scratch@;
                        match scratch.pop() {
                            Some(f) => {
                                frame = f;
                                proof {
                                    assert(before_pop.drop_last() =~= scratch@);
                                }
                            },
                            None => {
                                return Ok(());
                            },
                        }
                    },
                }
            }
            loop
                invariant_except_break
                    self.keeps(*old(self)),
                    s == self.input(),
                    s == old(self).input(),
                    enclosing is None,
                    self.index() > i,
                    !accept_comma ==> skip_chain(s, skip_open(s, frame, self.index()), scratch@)
                        == skip_value(s, old(self).index()),
                    accept_comma ==> skip_chain(s, skip_after(s, frame, self.index()), scratch@)
                        == skip_value(s, old(self).index()),
                ensures
                    self.keeps(*old(self)),
                    s == self.input(),
                    enclosing is None,
                    self.index() > i,
                    skip_chain(s, skip_more(s, frame, self.index()), scratch@) == skip_value(s, old(self).index()),
                decreases s.len() - self.index(),
            {
                let ghost k = self.index();
                proof {
                    lemma_skip_open_unfold(s, frame, k);
                    lemma_skip_after_unfold(s, frame, k);
                    lemma_ws_end(s, k);
                }
                match self.parse_whitespace() {
                    Some(b) => {
                        if b == 44u8 && accept_comma {
                            self.eat_char();
                            break;
                        } else if (frame == 91u8 && b == 93u8) || (frame != 91u8 && b == 125u8) {
                        } else if accept_comma {
                            return Err(self.peek_error(
                                if frame == 91u8 {
                                    ErrorCode::ExpectedListCommaOrEnd
                                } else {
                                    ErrorCode::ExpectedObjectCommaOrEnd
                                },
                            ));
                        } else {
                            break;
                        }
                    },
                    None => {
                        return Err(self.peek_error(
                            if frame == 91u8 {
                                ErrorCode::EofWhileParsingList
                            } else {
                                ErrorCode::EofWhileParsingObject
                            },
                        ));
                    },
                }
                self.eat_char();
                let ghost before_pop = scratch@;
                frame = match scratch.pop() {
                    Some(f) => f,
                    None => {
                        return Ok(());
                    },
                };
                proof {
                    assert(before_pop.drop_last() =~= scratch@);
                }
                accept_comma = true;
            }
            let ghost p = self.index();
            if frame == 91u8 {
                proof {
                    lemma_skip_items_chain(s, p, scratch@);
                }
            } else {
                proof {
                    lemma_skip_members_unfold(s, p);
                    lemma_ws_end(s, p);
                }
                match self.parse_whitespace() {
                    Some(b) => {
                        if b == 34u8 {
                            self.eat_char();
                        } else {
                            return Err(self.peek_error(ErrorCode::KeyMustBeAString));
                        }
                    },
                    None => {
                        return Err(self.peek_error(ErrorCode::EofWhileParsingObject));
                    },
                }
                match self.read.ignore_str() {
                    Ok(()) => {},
                    Err(e) => {
                        return Err(e);
                    },
                }
                proof {
                    lemma_ws_end(s, self.index());
                }
                match self.parse_whitespace() {
                    Some(b) => {
                        if b == 58u8 {
                            self.eat_char();
                        } else {
                            return Err(self.peek_error(ErrorCode::ExpectedColon));
                        }
                    },
                    None => {
                        return Err(self.peek_error(ErrorCode::EofWhileParsingObject));
                    },
                }
                proof {
                    lemma_skip_member_value_chain(s, self.index(), scratch@, frame);
                }
            }
            enclosing = Some(frame);
        }
    }

    /// Skips a value that is not an array or object, whose first byte comes
    /// next.
    fn ignore_scalar(&mut self) -> (r: Result<(), Error>)
        requires
            old(self).wf(),
            old(self).index() < old(self).input().len(),
        ensures
            final(self).keeps(*old(self)),
            r is Err ==> r->Err_0.line >= 1,
            r is Ok ==> final(self).index() > old(self).index(),
            match skip_scalar(old(self).input(), old(self).index()) {
                Ok(q) => r is Ok && final(self).index() == q,
                Err((e, q)) => r == Err::<(), Error>(e) && final(self).index() == q,
            },
    {
        let peek = self.peek_or_null();
        if peek == 110u8 {
            self.eat_char();
            let ident: [u8; 3] = [117u8, 108u8, 108u8];
            assert(ident@ =~= seq![117u8, 108u8, 108u8]);
            self.parse_ident(&ident)
        } else if peek == 116u8 {
            self.eat_char();
            let ident: [u8; 3] = [114u8, 117u8, 101u8];
            assert(ident@ =~= seq![114u8, 117u8, 101u8]);
            self.parse_ident(&ident)
        } else if peek == 102u8 {
            self.eat_char();
            let ident: [u8; 4] = [97u8, 108u8, 115u8, 101u8];
            assert(ident@ =~= seq![97u8, 108u8, 115u8, 101u8]);
            self.parse_ident(&ident)
        } else if peek == 45u8 {
            self.eat_char();
            self.ignore_integer()
        } else if 48u8 <= peek && peek <= 57u8 {
            let ghost i = self.index();
            let r = self.ignore_integer();
            proof {
                crate::json::skip::lemma_ignore_integer_bounds(self.input(), i);
            }
            r
        } else if peek == 34u8 {
            self.eat_char();
            self.read.ignore_str()
        } else {
            Err(self.peek_error(ErrorCode::ExpectedSomeValue))
        }
    }

    /// Skips a number whose first digit comes next.
    fn ignore_integer(&mut self) -> (r: Result<(), Error>)
        requires
            old(self).wf(),
        ensures
            final(self).keeps(*old(self)),
            r is Err ==> r->Err_0.line >= 1,
            r is Err ==> r->Err_0.code != ErrorCode::RecursionLimitExceeded,
            match spec_ignore_integer(old(self).input(), old(self).index()) {
                Ok(j) => r is Ok && final(self).index() == j,
                Err((e, j)) => r == Err::<(), Error>(e) && final(self).index() == j,
            },
    {
        let ghost s = self.input();
        let ghost i = self.index();
        let c = self.next_char_or_null();
        if c == 48u8 {
            let p = self.peek_or_null();
            if 48u8 <= p && p <= 57u8 {
                return Err(self.peek_error(ErrorCode::InvalidNumber));
            }
        } else if 49u8 <= c && c <= 57u8 {
            self.skip_digits();
        } else {
            return Err(self.error(ErrorCode::InvalidNumber));
        }
        let p = self.peek_or_null();
        if p == 46u8 {
            self.ignore_decimal()
        } else if p == 101u8 || p == 69u8 {
            self.ignore_exponent()
        } else {
            Ok(())
        }
    }

    /// Skips a fraction, whose `.` comes next.
    fn ignore_decimal(&mut self) -> (r: Result<(), Error>)
        requires
            old(self).wf(),
            old(self).index() < old(self).input().len(),
        ensures
            final(self).keeps(*old(self)),
            r is Err ==> r->Err_0.line >= 1,
            r is Err ==> r->Err_0.code != ErrorCode::RecursionLimitExceeded,
            match spec_ignore_decimal(old(self).input(), old(self).index()) {
                Ok(j) => r is Ok && final(self).index() == j,
                Err((e, j)) => r == Err::<(), Error>(e) && final(self).index() == j,
            },
    {
        self.eat_char();
        let before = self.read.byte_offset();
        self.skip_digits();
        if self.read.byte_offset() == before {
            return Err(self.peek_error(ErrorCode::InvalidNumber));
        }
        let p = self.peek_or_null();
        if p == 101u8 || p == 69u8 {
            self.ignore_exponent()
        } else {
            Ok(())
        }
    }

    /// Skips an exponent, whose `e` or `E` comes next.
    fn ignore_exponent(&mut self) -> (r: Result<(), Error>)
        requires
            old(self).wf(),
            old(self).index() < old(self).input().len(),
        ensures
            final(self).keeps(*old(self)),
            r is Err ==> r->Err_0.line >= 1,
            r is Err ==> r->Err_0.code != ErrorCode::RecursionLimitExceeded,
            match spec_ignore_exponent(old(self).input(), old(self).index()) {
                Ok(j) => r is Ok && final(self).index() == j,
                Err((e, j)) => r == Err::<(), Error>(e) && final(self).index() == j,
            },
    {
        self.eat_char();
        let p = self.peek_or_null();
        if p == 43u8 || p == 45u8 {
            self.eat_char();
        }
        let c = self.next_char_or_null();
        if !(48u8 <= c && c <= 57u8) {
            return Err(self.error(ErrorCode::InvalidNumber));
        }
        self.skip_digits();
        Ok(())
    }

    /// Reads the next byte into `buf`, or fails at the end of the input.
    fn scan_or_eof(&mut self, buf: &mut String) -> (r: Result<u8, Error>)
        requires
            old(self).wf(),
        ensures
            final(self).keeps(*old(self)),
            old(self).index() < old(self).input().len() ==> {
                &&& r == Ok::<u8, Error>(old(self).input()[old(self).index()])
                &&& final(self).index() == old(self).index() + 1
                &&& final(buf)@ == old(buf)@.push(old(self).input()[old(self).index()] as char)
            },
            old(self).index() >= old(self).input().len() ==> {
                &&& r == Err::<u8, Error>(err_at(old(self).input(), ErrorCode::EofWhileParsingValue, old(self).index()))
                &&& final(self).index() == old(self).index()
                &&& final(buf)@ == old(buf)@
            },
    {
        match self.next_char() {
            Some(b) => {
                push_char(buf, b as char);
                Ok(b)
            },
            None => Err(self.error(ErrorCode::EofWhileParsingValue)),
        }
    }

    /// Reads digits into `buf`.
    fn scan_digits(&mut self, buf: &mut String, Ghost(i0): Ghost<int>)
        requires
            old(self).wf(),
            i0 <= old(self).index(),
        ensures
            final(self).keeps(*old(self)),
            final(self).index() == digits_end(old(self).input(), old(self).index()),
            final(buf)@ == old(buf)@ + scan_text(old(self).input(), i0, old(self).index(), final(self).index()),
    {
        let ghost s = self.input();
        let ghost k0 = self.index();
        proof {
            lemma_digits_end(s, k0);
        }
        loop
            invariant
                self.keeps(*old(self)),
                s == self.input(),
                k0 == old(self).index(),
                i0 <= k0 <= self.index(),
                digits_end(s, k0) <= s.len(),
                digits_end(s, self.index()) == digits_end(s, k0),
                forall|k: int| k0 <= k < digits_end(s, k0) ==> is_digit(#[trigger] s[k]),
                buf@ == old(buf)@ + scan_text(s, i0, k0, self.index()),
            decreases s.len() - self.index(),
        {
            let c = self.peek_or_null();
            if 48u8 <= c && c <= 57u8 {
                let ghost k = self.index();
                self.eat_char();
                push_char(buf, c as char);
                proof {
                    assert(is_digit(s[k]));
                    assert(scan_piece(s, i0, k) =~= seq![c as char]);
                    assert(buf@ =~= old(buf)@ + scan_text(s, i0, k0, self.index()));
                }
            } else {
                return;
            }
        }
    }

    /// Scans a number whose first digit comes next into `buf`.
    fn scan_integer(&mut self, buf: &mut String) -> (r: Result<(), Error>)
        requires
            old(self).wf(),
        ensures
            final(self).keeps(*old(self)),
            match spec_scan_integer(old(self).input(), old(self).index()) {
                Ok(j) => r is Ok && final(self).index() == j,
                Err((e, j)) => r == Err::<(), Error>(e) && final(self).index() == j,
            },
            final(buf)@ == old(buf)@ + scan_text(old(self).input(), old(self).index(), old(self).index(), final(self).index()),
    {
        let ghost s = self.input();
        let ghost i0 = self.index();
        let c = match self.scan_or_eof(buf) {
            Ok(c) => c,
            Err(e) => return Err(e),
        };
        proof {
            assert(i0 < s.len());
            assert(self.index() == i0 + 1);
            assert(c == s[i0]);
            assert(scan_text(s, i0, i0, i0) =~= Seq::<char>::empty());
            assert(scan_piece(s, i0, i0) =~= seq![c as char]);
            assert(buf@ =~= old(buf)@ + scan_text(s, i0, i0, self.index()));
        }
        if c == 48u8 {
            let p = self.peek_or_null();
            if 48u8 <= p && p <= 57u8 {
                return Err(self.peek_error(ErrorCode::InvalidNumber));
            }
            let ghost k1 = self.index();
            let r = self.scan_number(buf, Ghost(i0));
            proof {
                lemma_scan_text_concat(s, i0, i0, k1, self.index());
            }
            r
        } else if 49u8 <= c && c <= 57u8 {
            let ghost k1 = self.index();
            self.scan_digits(buf, Ghost(i0));
            proof {
                lemma_scan_text_concat(s, i0, i0, k1, self.index());
                lemma_digits_end(s, k1);
                if self.index() > k1 {
                    assert(is_digit(s[self.index() - 1]));
                }
            }
            let ghost k2 = self.index();
            let r = self.scan_number(buf, Ghost(i0));
            proof {
                lemma_scan_text_concat(s, i0, i0, k2, self.index());
            }
            r
        } else {
            Err(self.error(ErrorCode::InvalidNumber))
        }
    }

    /// Scans what follows the integer digits of a number that starts at
    /// `i0`.
    fn scan_number(&mut self, buf: &mut String, Ghost(i0): Ghost<int>) -> (r: Result<(), Error>)
        requires
            old(self).wf(),
            i0 < old(self).index(),
            is_digit(old(self).input()[old(self).index() - 1]),
        ensures
            final(self).keeps(*old(self)),
            match spec_scan_number(old(self).input(), old(self).index()) {
                Ok(j) => r is Ok && final(self).index() == j,
                Err((e, j)) => r == Err::<(), Error>(e) && final(self).index() == j,
            },
            final(buf)@ == old(buf)@ + scan_text(old(self).input(), i0, old(self).index(), final(self).index()),
    {
        let p = self.peek_or_null();
        if p == 46u8 {
            self.scan_decimal(buf, Ghost(i0))
        } else if p == 101u8 || p == 69u8 {
            self.scan_exponent(buf, Ghost(i0))
        } else {
            proof {
                assert(buf@ =~= old(buf)@ + scan_text(self.input(), i0, self.index(), self.index()));
            }
            Ok(())
        }
    }

    /// Scans a fraction, whose `.` comes next, of a number that starts at
    /// `i0`.
    fn scan_decimal(&mut self, buf: &mut String, Ghost(i0): Ghost<int>) -> (r: Result<(), Error>)
        requires
            old(self).wf(),
            i0 < old(self).index() < old(self).input().len(),
            old(self).input()[old(self).index()] == 46,
        ensures
            final(self).keeps(*old(self)),
            match spec_scan_decimal(old(self).input(), old(self).index()) {
                Ok(j) => r is Ok && final(self).index() == j,
                Err((e, j)) => r == Err::<(), Error>(e) && final(self).index() == j,
            },
            final(buf)@ == old(buf)@ + scan_text(old(self).input(), i0, old(self).index(), final(self).index()),
    {
        let ghost s = self.input();
        let ghost k = self.index();
        self.eat_char();
        push_char(buf, '.');
        proof {
            assert(scan_text(s, i0, k, k) =~= Seq::<char>::empty());
            assert(scan_piece(s, i0, k) =~= seq!['.']);
            assert(buf@ =~= old(buf)@ + scan_text(s, i0, k, k + 1));
        }
        let before = self.read.byte_offset();
        self.scan_digits(buf, Ghost(i0));
        proof {
            lemma_scan_text_concat(s, i0, k, k + 1, self.index());
            lemma_digits_end(s, k + 1);
        }
        if self.read.byte_offset() == before {
            match self.peek() {
                Some(_) => return Err(self.peek_error(ErrorCode::InvalidNumber)),
                None => return Err(self.peek_error(ErrorCode::EofWhileParsingValue)),
            }
        }
        let p = self.peek_or_null();
        if p == 101u8 || p == 69u8 {
            let ghost k2 = self.index();
            let r = self.scan_exponent(buf, Ghost(i0));
            proof {
                lemma_scan_text_concat(s, i0, k, k2, self.index());
            }
            r
        } else {
            Ok(())
        }
    }

    /// Scans an exponent, whose `e` or `E` comes next right after a digit,
    /// of a number that starts at `i0`.
    fn scan_exponent(&mut self, buf: &mut String, Ghost(i0): Ghost<int>) -> (r: Result<(), Error>)
        requires
            old(self).wf(),
            i0 < old(self).index() < old(self).input().len(),
            old(self).input()[old(self).index()] == 101 || old(self).input()[old(self).index()] == 69,
            is_digit(old(self).input()[old(self).index() - 1]),
        ensures
            final(self).keeps(*old(self)),
            match spec_scan_exponent(old(self).input(), old(self).index()) {
                Ok(j) => r is Ok && final(self).index() == j,
                Err((e, j)) => r == Err::<(), Error>(e) && final(self).index() == j,
            },
            final(buf)@ == old(buf)@ + scan_text(old(self).input(), i0, old(self).index(), final(self).index()),
    {
        let ghost s = self.input();
        let ghost k = self.index();
        self.eat_char();
        push_char(buf, 'e');
        proof {
            assert(scan_text(s, i0, k, k) =~= Seq::<char>::empty());
            assert(scan_piece(s, i0, k) =~= seq!['e']);
            assert(buf@ =~= old(buf)@ + scan_text(s, i0, k, k + 1));
        }
        let p = self.peek_or_null();
        if p == 43u8 {
            self.eat_char();
            proof {
                assert(scan_piece(s, i0, k + 1) =~= Seq::<char>::empty());
                assert(buf@ =~= old(buf)@ + scan_text(s, i0, k, k + 2));
            }
        } else if p == 45u8 {
            self.eat_char();
            push_char(buf, '-');
            proof {
                assert(scan_piece(s, i0, k + 1) =~= seq!['-']);
                assert(buf@ =~= old(buf)@ + scan_text(s, i0, k, k + 2));
            }
        }
        let ghost m2 = self.index();
        let c = match self.scan_or_eof(buf) {
            Ok(c) => c,
            Err(e) => return Err(e),
        };
        proof {
            assert(scan_piece(s, i0, m2) =~= seq![c as char]);
            assert(buf@ =~= old(buf)@ + scan_text(s, i0, k, m2 + 1));
        }
        if !(48u8 <= c && c <= 57u8) {
            return Err(self.error(ErrorCode::InvalidNumber));
        }
        let ghost k3 = self.index();
        self.scan_digits(buf, Ghost(i0));
        proof {
            lemma_scan_text_concat(s, i0, k, k3, self.index());
        }
        Ok(())
    }

    /// Reads a number whose sign has been read into its exact text: the
    /// sign, the digits as written, `e` for the exponent marker and no `+`
    /// in the exponent.
    pub fn parse_any_number_text(&mut self, positive: bool) -> (r: Result<String, Error>)
        requires
            old(self).wf(),
        ensures
            final(self).keeps(*old(self)),
            match spec_scan_integer(old(self).input(), old(self).index()) {
                Ok(j) => r is Ok && final(self).index() == j && r->Ok_0@ == (if positive { Seq::<char>::empty() } else { seq!['-'] }) + scan_text(old(self).input(), old(self).index(), old(self).index(), j),
                Err((e, j)) => r == Err::<String, Error>(e) && final(self).index() == j,
            },
    {
        let mut buf = String::new();
        if !positive {
            push_char(&mut buf, '-');
        }
        match self.scan_integer(&mut buf) {
            Ok(()) => Ok(buf),
            Err(e) => Err(e),
        }
    }

    /// Reads the value at the next byte only to report its kind, for a
    /// caller that expected another kind: a literal, number or string is
    /// read through, an array or object is reported at its bracket.
    fn peek_invalid_type(&mut self) -> (r: TypedError)
        requires
            old(self).wf(),
        ensures
            final(self).keeps(*old(self)),
            r matches TypedError::Syntax(e) ==> e.code != ErrorCode::RecursionLimitExceeded,
            match mismatch(old(self).input(), old(self).index()) {
                TypedFail::Syntax((e, k)) => r matches TypedError::Syntax(e2) && e2 == e && final(self).index() == k,
                TypedFail::InvalidType(u, k) => {
                    &&& r matches TypedError::InvalidType { unexpected, line, column } && unexpected@ == u
                        && (Position { line, column }) == position_of(old(self).input(), k)
                    &&& final(self).index() == k
                },
            },
    {
        let peek = self.peek_or_null();
        let unexpected = if peek == 110u8 {
            self.eat_char();
            let ident: [u8; 3] = [117u8, 108u8, 108u8];
            assert(ident@ =~= seq![117u8, 108u8, 108u8]);
            match self.parse_ident(&ident) {
                Ok(()) => Unexpected::Unit,
                Err(e) => {
                    return TypedError::Syntax(e);
                },
            }
        } else if peek == 116u8 {
            self.eat_char();
            let ident: [u8; 3] = [114u8, 117u8, 101u8];
            assert(ident@ =~= seq![114u8, 117u8, 101u8]);
            match self.parse_ident(&ident) {
                Ok(()) => Unexpected::Bool(true),
                Err(e) => {
                    return TypedError::Syntax(e);
                },
            }
        } else if peek == 102u8 {
            self.eat_char();
            let ident: [u8; 4] = [97u8, 108u8, 115u8, 101u8];
            assert(ident@ =~= seq![97u8, 108u8, 115u8, 101u8]);
            match self.parse_ident(&ident) {
                Ok(()) => Unexpected::Bool(false),
                Err(e) => {
                    return TypedError::Syntax(e);
                },
            }
        } else if peek == 45u8 || (48u8 <= peek && peek <= 57u8) {
            let positive = peek != 45u8;
            if !positive {
                self.eat_char();
            }
            match self.parse_any_number(positive) {
                Ok(ParserNumber::F64(p)) => Unexpected::Float(p),
                Ok(ParserNumber::U64(n)) => Unexpected::Unsigned(n),
                Ok(ParserNumber::I64(n)) => Unexpected::Signed(n),
                Err(e) => {
                    return TypedError::Syntax(e);
                },
            }
        } else if peek == 34u8 {
            self.eat_char();
            match self.read.parse_str() {
                Ok(v) => Unexpected::Str(v),
                Err(e) => {
                    return TypedError::Syntax(e);
                },
            }
        } else if peek == 91u8 {
            Unexpected::Sequence
        } else if peek == 123u8 {
            Unexpected::Mapping
        } else {
            return TypedError::Syntax(self.peek_error(ErrorCode::ExpectedSomeValue));
        };
        let p = self.read.position();
        TypedError::InvalidType { unexpected, line: p.line, column: p.column }
    }

    /// Reads a boolean.
    pub fn deserialize_bool(&mut self) -> (r: Result<bool, TypedError>)
        requires
            old(self).wf(),
        ensures
            final(self).keeps(*old(self)),
            typed_outcome(old(self).input(), spec_typed_bool(old(self).input(), old(self).index()), r, |b: bool| b,
                final(self).index()),
    {
        let peek = match self.parse_whitespace() {
            Some(b) => b,
            None => {
                return Err(TypedError::Syntax(self.peek_error(ErrorCode::EofWhileParsingValue)));
            },
        };
        if peek == 116u8 {
            self.eat_char();
            let ident: [u8; 3] = [114u8, 117u8, 101u8];
            assert(ident@ =~= seq![114u8, 117u8, 101u8]);
            match self.parse_ident(&ident) {
                Ok(()) => Ok(true),
                Err(e) => Err(TypedError::Syntax(e)),
            }
        } else if peek == 102u8 {
            self.eat_char();
            let ident: [u8; 4] = [97u8, 108u8, 115u8, 101u8];
            assert(ident@ =~= seq![97u8, 108u8, 115u8, 101u8]);
            match self.parse_ident(&ident) {
                Ok(()) => Ok(false),
                Err(e) => Err(TypedError::Syntax(e)),
            }
        } else {
            Err(self.peek_invalid_type())
        }
    }

    /// Reads `null` as the unit value.
    pub fn deserialize_unit(&mut self) -> (r: Result<(), TypedError>)
        requires
            old(self).wf(),
        ensures
            final(self).keeps(*old(self)),
            typed_outcome(old(self).input(), spec_typed_unit(old(self).input(), old(self).index()), r, |u: ()| u,
                final(self).index()),
    {
        let peek = match self.parse_whitespace() {
            Some(b) => b,
            None => {
                return Err(TypedError::Syntax(self.peek_error(ErrorCode::EofWhileParsingValue)));
            },
        };
        if peek == 110u8 {
            self.eat_char();
            let ident: [u8; 3] = [117u8, 108u8, 108u8];
            assert(ident@ =~= seq![117u8, 108u8, 108u8]);
            match self.parse_ident(&ident) {
                Ok(()) => Ok(()),
                Err(e) => Err(TypedError::Syntax(e)),
            }
        } else {
            Err(self.peek_invalid_type())
        }
    }

    /// Reads a string: its decoded bytes.
    pub fn deserialize_str(&mut self) -> (r: Result<Vec<u8>, TypedError>)
        requires
            old(self).wf(),
        ensures
            final(self).keeps(*old(self)),
            typed_outcome(old(self).input(), spec_typed_str(old(self).input(), old(self).index()), r,
                |v: Vec<u8>| v@, final(self).index()),
    {
        let peek = match self.parse_whitespace() {
            Some(b) => b,
            None => {
                return Err(TypedError::Syntax(self.peek_error(ErrorCode::EofWhileParsingValue)));
            },
        };
        if peek == 34u8 {
            self.eat_char();
            match self.read.parse_str() {
                Ok(v) => Ok(v),
                Err(e) => Err(TypedError::Syntax(e)),
            }
        } else {
            Err(self.peek_invalid_type())
        }
    }

    /// Reads a number, for a caller that wants a number of a primitive type.
    pub fn deserialize_prim_number(&mut self) -> (r: Result<ParserNumber, TypedError>)
        requires
            old(self).wf(),
        ensures
            final(self).keeps(*old(self)),
            typed_outcome(old(self).input(), spec_typed_number(old(self).input(), old(self).index()), r,
                |n: ParserNumber| n, final(self).index()),
    {
        let peek = match self.parse_whitespace() {
            Some(b) => b,
            None => {
                return Err(TypedError::Syntax(self.peek_error(ErrorCode::EofWhileParsingValue)));
            },
        };
        if peek == 45u8 || (48u8 <= peek && peek <= 57u8) {
            let positive = peek != 45u8;
            if !positive {
                self.eat_char();
            }
            match self.parse_integer(positive) {
                Ok(n) => Ok(n),
                Err(e) => Err(TypedError::Syntax(e)),
            }
        } else {
            Err(self.peek_invalid_type())
        }
    }

    /// Reads an optional value: `Ok(false)` after reading `null`, `Ok(true)`
    /// when a value comes next (only whitespace is read).
    pub fn deserialize_option(&mut self) -> (r: Result<bool, Error>)
        requires
            old(self).wf(),
        ensures
            final(self).keeps(*old(self)),
            match spec_typed_option(old(self).input(), old(self).index()) {
                Ok((some, k)) => r == Ok::<bool, Error>(some) && final(self).index() == k,
                Err((e, k)) => r == Err::<bool, Error>(e) && final(self).index() == k,
            },
    {
        match self.parse_whitespace() {
            Some(b) => {
                if b == 110u8 {
                    self.eat_char();
                    let ident: [u8; 3] = [117u8, 108u8, 108u8];
                    assert(ident@ =~= seq![117u8, 108u8, 108u8]);
                    match self.parse_ident(&ident) {
                        Ok(()) => Ok(false),
                        Err(e) => Err(e),
                    }
                } else {
                    Ok(true)
                }
            },
            None => Ok(true),
        }
    }

    /// Opens an array or an object that must come next, one level deeper
    /// (`arrays`, `objects`: which are accepted); `Ok(true)` for an array.
    fn open_container(&mut self, arrays: bool, objects: bool) -> (r: Result<bool, TypedError>)
        requires
            old(self).wf(),
            old(self).unbounded() || old(self).depth() >= 1 || !opens_container(old(self).input(), old(self).index(), arrays, objects),
        ensures
            final(self).wf(),
            final(self).input() == old(self).input(),
            old(self).index() <= final(self).index(),
            final(self).unbounded() == old(self).unbounded(),
            final(self).nan_null() == old(self).nan_null(),
            typed_outcome(old(self).input(), spec_typed_open(old(self).input(), old(self).index(), old(self).depth(),
                old(self).unbounded(), arrays, objects), r, |b: bool| b, final(self).index()),
            final(self).depth() == open_depth(spec_typed_open(old(self).input(), old(self).index(), old(self).depth(),
                old(self).unbounded(), arrays, objects), old(self).depth(), old(self).unbounded()),
    {
        let peek = match self.parse_whitespace() {
            Some(b) => b,
            None => {
                return Err(TypedError::Syntax(self.peek_error(ErrorCode::EofWhileParsingValue)));
            },
        };
        if (arrays && peek == 91u8) || (objects && peek == 123u8) {
            if !self.disable_recursion_limit {
                self.remaining_depth = self.remaining_depth - 1;
                if self.remaining_depth == 0 {
                    return Err(TypedError::Syntax(self.peek_error(ErrorCode::RecursionLimitExceeded)));
                }
            }
            self.eat_char();
            Ok(peek == 91u8)
        } else {
            Err(self.peek_invalid_type())
        }
    }

    /// Opens an array that must come next, one level deeper; its elements
    /// are then read one by one, and `deserialize_seq_end` closes it.
    pub fn deserialize_seq(&mut self) -> (r: Result<(), TypedError>)
        requires
            old(self).wf(),
            old(self).unbounded() || old(self).depth() >= 1 || !opens_container(old(self).input(), old(self).index(), true, false),
        ensures
            final(self).wf(),
            final(self).input() == old(self).input(),
            final(self).unbounded() == old(self).unbounded(),
            final(self).nan_null() == old(self).nan_null(),
            typed_outcome(old(self).input(), spec_typed_open(old(self).input(), old(self).index(), old(self).depth(),
                old(self).unbounded(), true, false), r, |b: ()| true, final(self).index()),
            final(self).depth() == open_depth(spec_typed_open(old(self).input(), old(self).index(), old(self).depth(),
                old(self).unbounded(), true, false), old(self).depth(), old(self).unbounded()),
    {
        match self.open_container(true, false) {
            Ok(_) => Ok(()),
            Err(e) => Err(e),
        }
    }

    /// Opens an object that must come next, one level deeper; its members
    /// are then read one by one, and `deserialize_map_end` closes it.
    pub fn deserialize_map(&mut self) -> (r: Result<(), TypedError>)
        requires
            old(self).wf(),
            old(self).unbounded() || old(self).depth() >= 1 || !opens_container(old(self).input(), old(self).index(), false, true),
        ensures
            final(self).wf(),
            final(self).input() == old(self).input(),
            final(self).unbounded() == old(self).unbounded(),
            final(self).nan_null() == old(self).nan_null(),
            typed_outcome(old(self).input(), spec_typed_open(old(self).input(), old(self).index(), old(self).depth(),
                old(self).unbounded(), false, true), r, |b: ()| false, final(self).index()),
            final(self).depth() == open_depth(spec_typed_open(old(self).input(), old(self).index(), old(self).depth(),
                old(self).unbounded(), false, true), old(self).depth(), old(self).unbounded()),
    {
        match self.open_container(false, true) {
            Ok(_) => Ok(()),
            Err(e) => Err(e),
        }
    }

    /// Opens a struct, which may come as an array of its fields or as an
    /// object: `Ok(true)` for an array.
    pub fn deserialize_struct(&mut self) -> (r: Result<bool, TypedError>)
        requires
            old(self).wf(),
            old(self).unbounded() || old(self).depth() >= 1 || !opens_container(old(self).input(), old(self).index(), true, true),
        ensures
            final(self).wf(),
            final(self).input() == old(self).input(),
            final(self).unbounded() == old(self).unbounded(),
            final(self).nan_null() == old(self).nan_null(),
            typed_outcome(old(self).input(), spec_typed_open(old(self).input(), old(self).index(), old(self).depth(),
                old(self).unbounded(), true, true), r, |b: bool| b, final(self).index()),
            final(self).depth() == open_depth(spec_typed_open(old(self).input(), old(self).index(), old(self).depth(),
                old(self).unbounded(), true, true), old(self).depth(), old(self).unbounded()),
    {
        self.open_container(true, true)
    }

    /// Whether another element of the array being read comes (`first`: none
    /// read yet); when one does, the reader stands at its first byte, and
    /// at the closing `]` otherwise.
    pub fn seq_next_element(&mut self, first: bool) -> (r: Result<bool, Error>)
        requires
            old(self).wf(),
        ensures
            final(self).keeps(*old(self)),
            match spec_seq_next(old(self).input(), old(self).index(), first) {
                Ok((more, k)) => r == Ok::<bool, Error>(more) && final(self).index() == k,
                Err((e, k)) => r == Err::<bool, Error>(e) && final(self).index() == k,
            },
    {
        let peek = match self.parse_whitespace() {
            Some(b) => b,
            None => {
                return Err(self.peek_error(ErrorCode::EofWhileParsingList));
            },
        };
        if peek == 93u8 {
            return Ok(false);
        }
        if peek == 44u8 && !first {
            self.eat_char();
            match self.parse_whitespace() {
                Some(b) => {
                    if b == 93u8 {
                        Err(self.peek_error(ErrorCode::TrailingComma))
                    } else {
                        Ok(true)
                    }
                },
                None => Err(self.peek_error(ErrorCode::EofWhileParsingValue)),
            }
        } else if first {
            Ok(true)
        } else {
            Err(self.peek_error(ErrorCode::ExpectedListCommaOrEnd))
        }
    }

    /// Reads the next key of the object being read (`first`: none read
    /// yet), or finds its closing `}` (not read) and gives none. The value
    /// follows the key after `parse_object_colon`.
    pub fn map_next_key(&mut self, first: bool) -> (r: Result<Option<Vec<u8>>, Error>)
        requires
            old(self).wf(),
        ensures
            final(self).keeps(*old(self)),
            match spec_map_next(old(self).input(), old(self).index(), first) {
                Ok((key, k)) => r is Ok && final(self).index() == k && match key {
                    Some(b) => r->Ok_0 matches Some(v) && v@ == b,
                    None => r->Ok_0 is None,
                },
                Err((e, k)) => r == Err::<Option<Vec<u8>>, Error>(e) && final(self).index() == k,
            },
    {
        let peek = match self.parse_whitespace() {
            Some(b) => b,
            None => {
                return Err(self.peek_error(ErrorCode::EofWhileParsingObject));
            },
        };
        if peek == 125u8 {
            return Ok(None);
        }
        let key_start = if peek == 44u8 && !first {
            self.eat_char();
            match self.parse_whitespace() {
                Some(b) => {
                    if b == 34u8 {
                        true
                    } else if b == 125u8 {
                        return Err(self.peek_error(ErrorCode::TrailingComma));
                    } else {
                        return Err(self.peek_error(ErrorCode::KeyMustBeAString));
                    }
                },
                None => {
                    return Err(self.peek_error(ErrorCode::EofWhileParsingValue));
                },
            }
        } else if first {
            if peek == 34u8 {
                true
            } else {
                return Err(self.peek_error(ErrorCode::KeyMustBeAString));
            }
        } else {
            return Err(self.peek_error(ErrorCode::ExpectedObjectCommaOrEnd));
        };
        assert(key_start);
        self.eat_char();
        match self.read.parse_str() {
            Ok(v) => Ok(Some(v)),
            Err(e) => Err(e),
        }
    }

    /// Closes the array opened by `deserialize_seq`: the level is given
    /// back, then the `]` must come.
    pub fn deserialize_seq_end(&mut self) -> (r: Result<(), Error>)
        requires
            old(self).wf(),
            old(self).unbounded() || old(self).depth() < 255,
        ensures
            final(self).wf(),
            final(self).input() == old(self).input(),
            final(self).unbounded() == old(self).unbounded(),
            final(self).nan_null() == old(self).nan_null(),
            final(self).depth() == if old(self).unbounded() { old(self).depth() } else { old(self).depth() + 1 },
            match spec_end_seq(old(self).input(), old(self).index()) {
                Ok(j) => r is Ok && final(self).index() == j,
                Err((e, j)) => r == Err::<(), Error>(e) && final(self).index() == j,
            },
    {
        if !self.disable_recursion_limit {
            self.remaining_depth = self.remaining_depth + 1;
        }
        self.end_seq()
    }

    /// Closes the object opened by `deserialize_map`: the level is given
    /// back, then the `}` must come.
    pub fn deserialize_map_end(&mut self) -> (r: Result<(), Error>)
        requires
            old(self).wf(),
            old(self).unbounded() || old(self).depth() < 255,
        ensures
            final(self).wf(),
            final(self).input() == old(self).input(),
            final(self).unbounded() == old(self).unbounded(),
            final(self).nan_null() == old(self).nan_null(),
            final(self).depth() == if old(self).unbounded() { old(self).depth() } else { old(self).depth() + 1 },
            match spec_end_map(old(self).input(), old(self).index()) {
                Ok(j) => r is Ok && final(self).index() == j,
                Err((e, j)) => r == Err::<(), Error>(e) && final(self).index() == j,
            },
    {
        if !self.disable_recursion_limit {
            self.remaining_depth = self.remaining_depth + 1;
        }
        self.end_map()
    }

    /// Opens an enum: `Ok(true)` after a `{` (one level deeper), which the
    /// variant's name, a `:` and its value follow, then
    /// `deserialize_enum_end`; `Ok(false)` before the string naming a unit
    /// variant.
    pub fn deserialize_enum(&mut self) -> (r: Result<bool, Error>)
        requires
            old(self).wf(),
            old(self).unbounded() || old(self).depth() >= 1 || !opens_container(old(self).input(), old(self).index(), false, true),
        ensures
            final(self).wf(),
            final(self).input() == old(self).input(),
            final(self).unbounded() == old(self).unbounded(),
            final(self).nan_null() == old(self).nan_null(),
            final(self).depth() == enum_depth(spec_enum_open(old(self).input(), old(self).index(), old(self).depth(),
                old(self).unbounded()), old(self).depth(), old(self).unbounded()),
            match spec_enum_open(old(self).input(), old(self).index(), old(self).depth(), old(self).unbounded()) {
                Ok((braced, k)) => r == Ok::<bool, Error>(braced) && final(self).index() == k,
                Err((e, k)) => r == Err::<bool, Error>(e) && final(self).index() == k,
            },
    {
        match self.parse_whitespace() {
            Some(b) => {
                if b == 123u8 {
                    if !self.disable_recursion_limit {
                        self.remaining_depth = self.remaining_depth - 1;
                        if self.remaining_depth == 0 {
                            return Err(self.peek_error(ErrorCode::RecursionLimitExceeded));
                        }
                    }
                    self.eat_char();
                    Ok(true)
                } else if b == 34u8 {
                    Ok(false)
                } else {
                    Err(self.peek_error(ErrorCode::ExpectedSomeValue))
                }
            },
            None => Err(self.peek_error(ErrorCode::EofWhileParsingValue)),
        }
    }

    /// Closes an enum opened with a `{`: the level is given back, then the
    /// `}` must come.
    pub fn deserialize_enum_end(&mut self) -> (r: Result<(), Error>)
        requires
            old(self).wf(),
            old(self).unbounded() || old(self).depth() < 255,
        ensures
            final(self).wf(),
            final(self).input() == old(self).input(),
            final(self).unbounded() == old(self).unbounded(),
            final(self).nan_null() == old(self).nan_null(),
            final(self).depth() == if old(self).unbounded() { old(self).depth() } else { old(self).depth() + 1 },
            match spec_enum_close(old(self).input(), old(self).index()) {
                Ok(j) => r is Ok && final(self).index() == j,
                Err((e, j)) => r == Err::<(), Error>(e) && final(self).index() == j,
            },
    {
        if !self.disable_recursion_limit {
            self.remaining_depth = self.remaining_depth + 1;
        }
        match self.parse_whitespace() {
            Some(b) => {
                if b == 125u8 {
                    self.eat_char();
                    Ok(())
                } else {
                    Err(self.error(ErrorCode::ExpectedSomeValue))
                }
            },
            None => Err(self.error(ErrorCode::EofWhileParsingObject)),
        }
    }

    /// Reads one JSON value, appending its events to `out`.
    pub fn deserialize_any(&mut self, out: &mut Vec<Event>) -> (r: Result<(), Error>)
        requires
            old(self).wf(),
            old(self).unbounded() || old(self).depth() >= 1 || !opens_container(old(self).input(), old(self).index(), true, true),
        ensures
            final(self).wf(),
            final(self).input() == old(self).input(),
            final(self).unbounded() == old(self).unbounded(),
            final(self).nan_null() == old(self).nan_null(),
            old(self).index() <= final(self).index(),
            final(self).depth() == old(self).depth() - recursion_cost(r),
            old(self).unbounded() ==> final(self).depth() == old(self).depth(),
            r is Err ==> r->Err_0.line >= 1,
            r is Ok ==> final(self).index() > old(self).index(),
            outcome(r, final(self).index(), tokens(old(out)@), tokens(final(out)@),
                spec_value(old(self).input(), old(self).index(), old(self).depth(), old(self).unbounded(), old(self).nan_null())),
        decreases old(self).input().len() - old(self).index(), 1int,
    {
        let ghost s = self.input();
        proof {
            lemma_ws_end(s, self.index());
            lemma_value_unfold(s, self.index(), self.depth(), self.unbounded(), self.nan_null());
            lemma_extends_append(tokens(out@), seq![]);
            assert(tokens(out@) + seq![] =~= tokens(out@));
        }
        let peek = match self.parse_whitespace() {
            Some(b) => b,
            None => {
                return Err(self.peek_error(ErrorCode::EofWhileParsingValue));
            },
        };
        let value = if peek == 91u8 {
            self.deserialize_array(out)
        } else if peek == 123u8 {
            self.deserialize_object(out)
        } else {
            self.deserialize_scalar(out)
        };
        match value {
            Ok(()) => Ok(()),
            Err(err) => Err(self.fix_position(err)),
        }
    }

    /// Reads an array, whose `[` comes next, appending its events to `out`.
    fn deserialize_array(&mut self, out: &mut Vec<Event>) -> (r: Result<(), Error>)
        requires
            old(self).wf(),
            old(self).unbounded() || old(self).depth() >= 1,
            old(self).index() < old(self).input().len(),
        ensures
            final(self).wf(),
            final(self).input() == old(self).input(),
            final(self).unbounded() == old(self).unbounded(),
            final(self).nan_null() == old(self).nan_null(),
            old(self).index() <= final(self).index(),
            final(self).depth() == old(self).depth() - recursion_cost(r),
            old(self).unbounded() ==> final(self).depth() == old(self).depth(),
            r is Err ==> r->Err_0.line >= 1,
            r is Ok ==> final(self).index() > old(self).index(),
            outcome(r, final(self).index(), tokens(old(out)@), tokens(final(out)@),
                spec_array(old(self).input(), old(self).index(), old(self).depth(), old(self).unbounded(), old(self).nan_null())),
        decreases old(self).input().len() - old(self).index(), 0int,
    {
        let ghost before = tokens(out@);
        proof {
            lemma_array_unfold(self.input(), self.index(), self.depth(), self.unbounded(), self.nan_null());
            lemma_extends_append(before, seq![]);
            assert(before + seq![] =~= before);
        }
        if !self.disable_recursion_limit {
            self.remaining_depth = self.remaining_depth - 1;
            if self.remaining_depth == 0 {
                return Err(self.peek_error(ErrorCode::RecursionLimitExceeded));
            }
        }
        self.eat_char();
        out.push(Event::StartArray);
        proof {
            lemma_tokens_push(old(out)@, Event::StartArray);
            lemma_extends_append(before, seq![Token::StartArray]);
            assert(before.push(Token::StartArray) =~= before + seq![Token::StartArray]);
        }
        let ghost mid = tokens(out@);
        let ghost rs = spec_elements(self.input(), self.index(), true, self.depth(), self.unbounded(), self.nan_null());
        let ret = self.seq_elements(out);
        if !self.disable_recursion_limit {
            self.remaining_depth = self.remaining_depth + 1;
        }
        let ghost inner = tokens(out@);
        let end = self.end_seq();
        match ret {
            Ok(()) => match end {
                Ok(()) => {
                    let ghost pre = out@;
                    out.push(Event::EndArray);
                    proof {
                        lemma_tokens_push(pre, Event::EndArray);
                        let t = rs->Ok_0.0;
                        assert(tokens(out@) =~= before + (seq![Token::StartArray] + t + seq![Token::EndArray]));
                    }
                    Ok(())
                },
                Err(e) => {
                    proof {
                        lemma_extends_append(mid, rs->Ok_0.0);
                        lemma_extends_trans(before, mid, inner);
                    }
                    Err(e)
                },
            },
            Err(e) => {
                proof { lemma_extends_trans(before, mid, inner); }
                Err(e)
            },
        }
    }

    /// Reads an object, whose `{` comes next, appending its events to `out`.
    fn deserialize_object(&mut self, out: &mut Vec<Event>) -> (r: Result<(), Error>)
        requires
            old(self).wf(),
            old(self).unbounded() || old(self).depth() >= 1,
            old(self).index() < old(self).input().len(),
        ensures
            final(self).wf(),
            final(self).input() == old(self).input(),
            final(self).unbounded() == old(self).unbounded(),
            final(self).nan_null() == old(self).nan_null(),
            old(self).index() <= final(self).index(),
            final(self).depth() == old(self).depth() - recursion_cost(r),
            old(self).unbounded() ==> final(self).depth() == old(self).depth(),
            r is Err ==> r->Err_0.line >= 1,
            r is Ok ==> final(self).index() > old(self).index(),
            outcome(r, final(self).index(), tokens(old(out)@), tokens(final(out)@),
                spec_object(old(self).input(), old(self).index(), old(self).depth(), old(self).unbounded(), old(self).nan_null())),
        decreases old(self).input().len() - old(self).index(), 0int,
    {
        let ghost before = tokens(out@);
        proof {
            lemma_object_unfold(self.input(), self.index(), self.depth(), self.unbounded(), self.nan_null());
            lemma_extends_append(before, seq![]);
            assert(before + seq![] =~= before);
        }
        if !self.disable_recursion_limit {
            self.remaining_depth = self.remaining_depth - 1;
            if self.remaining_depth == 0 {
                return Err(self.peek_error(ErrorCode::RecursionLimitExceeded));
            }
        }
        self.eat_char();
        out.push(Event::StartObject);
        proof {
            lemma_tokens_push(old(out)@, Event::StartObject);
            lemma_extends_append(before, seq![Token::StartObject]);
            assert(before.push(Token::StartObject) =~= before + seq![Token::StartObject]);
        }
        let ghost mid = tokens(out@);
        let ghost rs = spec_members(self.input(), self.index(), true, self.depth(), self.unbounded(), self.nan_null());
        let ret = self.map_members(out);
        if !self.disable_recursion_limit {
            self.remaining_depth = self.remaining_depth + 1;
        }
        let ghost inner = tokens(out@);
        let end = self.end_map();
        match ret {
            Ok(()) => match end {
                Ok(()) => {
                    let ghost pre = out@;
                    out.push(Event::EndObject);
                    proof {
                        lemma_tokens_push(pre, Event::EndObject);
                        let t = rs->Ok_0.0;
                        assert(tokens(out@) =~= before + (seq![Token::StartObject] + t + seq![Token::EndObject]));
                    }
                    Ok(())
                },
                Err(e) => {
                    proof {
                        lemma_extends_append(mid, rs->Ok_0.0);
                        lemma_extends_trans(before, mid, inner);
                    }
                    Err(e)
                },
            },
            Err(e) => {
                proof { lemma_extends_trans(before, mid, inner); }
                Err(e)
            },
        }
    }

    /// Reads a value that is not an array or object, whose first byte comes
    /// next, appending its event to `out`.
    fn deserialize_scalar(&mut self, out: &mut Vec<Event>) -> (r: Result<(), Error>)
        requires
            old(self).wf(),
            old(self).index() < old(self).input().len(),
        ensures
            final(self).keeps(*old(self)),
            r is Err ==> r->Err_0.line >= 1,
            r is Err ==> r->Err_0.code != ErrorCode::RecursionLimitExceeded,
            r is Ok ==> final(self).index() > old(self).index(),
            outcome(r, final(self).index(), tokens(old(out)@), tokens(final(out)@),
                spec_scalar(old(self).input(), old(self).index(), old(self).nan_null())),
    {
        proof {
            reveal(spec_scalar);
            lemma_extends_append(tokens(old(out)@), seq![]);
            assert(tokens(old(out)@) + seq![] =~= tokens(old(out)@));
        }
        let peek = self.peek_or_null();
        if peek == 110u8 {
            self.eat_char();
            if self.nan_as_null && self.peek_or_null() == 97u8 {
                let ident: [u8; 2] = [97u8, 110u8];
                assert(ident@ =~= seq![97u8, 110u8]);
                return match self.parse_ident(&ident) {
                    Ok(()) => {
                        out.push(Event::Null);
                        proof { lemma_tokens_push(old(out)@, Event::Null); }
                        Ok(())
                    },
                    Err(e) => Err(e),
                };
            }
            let ident: [u8; 3] = [117u8, 108u8, 108u8];
            assert(ident@ =~= seq![117u8, 108u8, 108u8]);
            match self.parse_ident(&ident) {
                Ok(()) => {
                    out.push(Event::Null);
                    proof { lemma_tokens_push(old(out)@, Event::Null); }
                    Ok(())
                },
                Err(e) => Err(e),
            }
        } else if peek == 116u8 {
            self.eat_char();
            let ident: [u8; 3] = [114u8, 117u8, 101u8];
            assert(ident@ =~= seq![114u8, 117u8, 101u8]);
            match self.parse_ident(&ident) {
                Ok(()) => {
                    out.push(Event::Bool(true));
                    proof { lemma_tokens_push(old(out)@, Event::Bool(true)); }
                    Ok(())
                },
                Err(e) => Err(e),
            }
        } else if peek == 102u8 {
            self.eat_char();
            let ident: [u8; 4] = [97u8, 108u8, 115u8, 101u8];
            assert(ident@ =~= seq![97u8, 108u8, 115u8, 101u8]);
            match self.parse_ident(&ident) {
                Ok(()) => {
                    out.push(Event::Bool(false));
                    proof { lemma_tokens_push(old(out)@, Event::Bool(false)); }
                    Ok(())
                },
                Err(e) => Err(e),
            }
        } else if peek == 45u8 || (48u8 <= peek && peek <= 57u8) {
            let positive = peek != 45u8;
            if !positive {
                self.eat_char();
            }
            match self.parse_any_number(positive) {
                Ok(n) => {
                    out.push(Event::Number(n));
                    proof { lemma_tokens_push(old(out)@, Event::Number(n)); }
                    Ok(())
                },
                Err(e) => Err(e),
            }
        } else if peek == 34u8 {
            self.eat_char();
            match self.read.parse_str() {
                Ok(v) => {
                    out.push(Event::Str(v));
                    proof { lemma_tokens_push(old(out)@, Event::Str(v)); }
                    Ok(())
                },
                Err(e) => Err(e),
            }
        } else {
            Err(self.peek_error(ErrorCode::ExpectedSomeValue))
        }
    }

    /// Reads the elements of an array whose `[` was just read, up to (not
    /// including) its `]`, appending their events to `out`.
    fn seq_elements(&mut self, out: &mut Vec<Event>) -> (r: Result<(), Error>)
        requires
            old(self).wf(),
            old(self).unbounded() || old(self).depth() >= 1,
        ensures
            final(self).wf(),
            final(self).input() == old(self).input(),
            final(self).unbounded() == old(self).unbounded(),
            final(self).nan_null() == old(self).nan_null(),
            old(self).index() <= final(self).index(),
            final(self).depth() == old(self).depth() - recursion_cost(r),
            old(self).unbounded() ==> final(self).depth() == old(self).depth(),
            r is Err ==> r->Err_0.line >= 1,
            outcome(r, final(self).index(), tokens(old(out)@), tokens(final(out)@),
                spec_elements(old(self).input(), old(self).index(), true, old(self).depth(), old(self).unbounded(), old(self).nan_null())),
        decreases old(self).input().len() - old(self).index(), 3int,
    {
        let ghost s = self.input();
        let ghost d = self.depth();
        let ghost u = self.unbounded();
        let ghost before = tokens(out@);
        let ghost mut acc: Seq<Token> = seq![];
        let mut first = true;
        proof {
            assert(before + acc =~= before);
            lemma_after_empty(spec_elements(s, self.index(), true, d, u, self.nan_null()));
        }
        loop
            invariant
                self.wf(),
                self.input() == s,
                s == old(self).input(),
                self.depth() == d,
                d == old(self).depth(),
                self.unbounded() == u,
                self.nan_null() == old(self).nan_null(),
                u == old(self).unbounded(),
                u || d >= 1,
                old(self).index() <= self.index(),
                before == tokens(old(out)@),
                tokens(out@) == before + acc,
                after(acc, spec_elements(s, self.index(), first, d, u, self.nan_null()))
                    == spec_elements(s, old(self).index(), true, d, u, old(self).nan_null()),
            decreases s.len() - self.index(),
        {
            proof { lemma_extends_append(before, acc); }
            let ghost i = self.index();
            let ghost first0 = first;
            proof {
                lemma_elements_unfold(s, i, first, d, u, self.nan_null());
                lemma_ws_end(s, i);
            }
            let peek = match self.parse_whitespace() {
                Some(b) => b,
                None => {
                    return Err(self.peek_error(ErrorCode::EofWhileParsingList));
                },
            };
            if peek == 93u8 {
                return Ok(());
            }
            if peek == 44u8 && !first {
                self.eat_char();
                match self.parse_whitespace() {
                    Some(c) => {
                        if c == 93u8 {
                            return Err(self.peek_error(ErrorCode::TrailingComma));
                        }
                    },
                    None => {
                        return Err(self.peek_error(ErrorCode::EofWhileParsingValue));
                    },
                }
            } else if first {
                first = false;
            } else {
                return Err(self.peek_error(ErrorCode::ExpectedListCommaOrEnd));
            }
            let ghost p = self.index();
            let ghost pre = tokens(out@);
            proof {
                lemma_ws_end(s, i);
                assert(spec_elements(s, i, first0, d, u, self.nan_null()) == spec_element(s, p, d, u, self.nan_null()));
                lemma_element_unfold(s, p, d, u, self.nan_null());
            }
            let ghost rv = spec_value(s, p, d, u, self.nan_null());
            match self.deserialize_any(out) {
                Ok(()) => {},
                Err(e) => {
                    proof { lemma_extends_trans(before, pre, tokens(out@)); }
                    return Err(e);
                },
            }
            proof {
                let t = rv->Ok_0.0;
                lemma_after_after(acc, t, spec_elements(s, self.index(), false, d, u, self.nan_null()));
                assert(tokens(out@) =~= before + (acc + t));
                acc = acc + t;
            }
            first = false;
        }
    }

    /// Reads the members of an object whose `{` was just read, up to (not
    /// including) its `}`, appending to `out` each key and the events of its
    /// value.
    fn map_members(&mut self, out: &mut Vec<Event>) -> (r: Result<(), Error>)
        requires
            old(self).wf(),
            old(self).unbounded() || old(self).depth() >= 1,
        ensures
            final(self).wf(),
            final(self).input() == old(self).input(),
            final(self).unbounded() == old(self).unbounded(),
            final(self).nan_null() == old(self).nan_null(),
            old(self).index() <= final(self).index(),
            final(self).depth() == old(self).depth() - recursion_cost(r),
            old(self).unbounded() ==> final(self).depth() == old(self).depth(),
            r is Err ==> r->Err_0.line >= 1,
            outcome(r, final(self).index(), tokens(old(out)@), tokens(final(out)@),
                spec_members(old(self).input(), old(self).index(), true, old(self).depth(), old(self).unbounded(), old(self).nan_null())),
        decreases old(self).input().len() - old(self).index(), 3int,
    {
        let ghost s = self.input();
        let ghost d = self.depth();
        let ghost u = self.unbounded();
        let ghost before = tokens(out@);
        let ghost mut acc: Seq<Token> = seq![];
        let mut first = true;
        proof {
            assert(before + acc =~= before);
            lemma_after_empty(spec_members(s, self.index(), true, d, u, self.nan_null()));
        }
        loop
            invariant
                self.wf(),
                self.input() == s,
                s == old(self).input(),
                self.depth() == d,
                d == old(self).depth(),
                self.unbounded() == u,
                self.nan_null() == old(self).nan_null(),
                u == old(self).unbounded(),
                u || d >= 1,
                old(self).index() <= self.index(),
                before == tokens(old(out)@),
                tokens(out@) == before + acc,
                after(acc, spec_members(s, self.index(), first, d, u, self.nan_null()))
                    == spec_members(s, old(self).index(), true, d, u, old(self).nan_null()),
            decreases s.len() - self.index(),
        {
            proof { lemma_extends_append(before, acc); }
            let ghost i = self.index();
            let ghost first0 = first;
            proof {
                lemma_members_unfold(s, i, first, d, u, self.nan_null());
                lemma_ws_end(s, i);
            }
            let peek = match self.parse_whitespace() {
                Some(b) => b,
                None => {
                    return Err(self.peek_error(ErrorCode::EofWhileParsingObject));
                },
            };
            if peek == 125u8 {
                return Ok(());
            }
            if peek == 44u8 && !first {
                self.eat_char();
                match self.parse_whitespace() {
                    Some(c) => {
                        if c == 125u8 {
                            return Err(self.peek_error(ErrorCode::TrailingComma));
                        }
                        if c != 34u8 {
                            return Err(self.peek_error(ErrorCode::KeyMustBeAString));
                        }
                    },
                    None => {
                        return Err(self.peek_error(ErrorCode::EofWhileParsingValue));
                    },
                }
            } else if first {
                first = false;
                if peek != 34u8 {
                    return Err(self.peek_error(ErrorCode::KeyMustBeAString));
                }
            } else {
                return Err(self.peek_error(ErrorCode::ExpectedObjectCommaOrEnd));
            }
            let ghost p = self.index();
            let ghost pre = tokens(out@);
            proof {
                assert(spec_members(s, i, first0, d, u, self.nan_null()) == spec_member(s, p, d, u, self.nan_null()));
                lemma_member_unfold(s, p, d, u, self.nan_null());
            }
            self.eat_char();
            let key = match self.read.parse_str() {
                Ok(k) => k,
                Err(e) => {
                    proof { lemma_extends_append(before, acc); }
                    return Err(e);
                },
            };
            let ghost key_bytes = key@;
            let ghost pre_key = out@;
            out.push(Event::Key(key));
            proof {
                lemma_tokens_push(pre_key, Event::Key(key));
                assert(tokens(out@) =~= pre + seq![Token::Key(key_bytes)]);
            }
            match self.parse_object_colon() {
                Ok(()) => {},
                Err(e) => {
                    proof { lemma_extends_append(pre, seq![Token::Key(key_bytes)]); lemma_extends_trans(before, pre, tokens(out@)); }
                    return Err(e);
                },
            }
            let ghost with_key = tokens(out@);
            let ghost rv = spec_value(s, self.index(), d, u, self.nan_null());
            match self.deserialize_any(out) {
                Ok(()) => {},
                Err(e) => {
                    proof {
                        lemma_extends_append(pre, seq![Token::Key(key_bytes)]);
                        lemma_extends_trans(before, pre, with_key);
                        lemma_extends_trans(before, with_key, tokens(out@));
                    }
                    return Err(e);
                },
            }
            proof {
                let t = rv->Ok_0.0;
                assert(tokens(out@) =~= before + (acc + (seq![Token::Key(key_bytes)] + t)));
                lemma_after_after(acc, seq![Token::Key(key_bytes)] + t, spec_members(s, self.index(), false, d, u, self.nan_null()));
                acc = acc + (seq![Token::Key(key_bytes)] + t);
            }
            first = false;
        }
    }

    /// An exponent too large for 32 bits: an error when it would make a
    /// nonzero number infinite, otherwise zero.
    fn parse_exponent_overflow(&mut self, positive: bool, significand: u64, positive_exp: bool, start: usize) -> (r: Result<ParserNumber, Error>)
        requires
            old(self).wf(),
            start <= old(self).index(),
        ensures
            final(self).keeps(*old(self)),
            r is Err ==> r->Err_0.line >= 1,
            r is Err ==> r->Err_0.code != ErrorCode::RecursionLimitExceeded,
            significand != 0 && positive_exp ==> r == Err::<ParserNumber, Error>(
                err_at(old(self).input(), ErrorCode::NumberOutOfRange, old(self).index()),
            ) && final(self).index() == old(self).index(),
            !(significand != 0 && positive_exp) ==> {
                let e = digits_end(old(self).input(), old(self).index());
                r == Ok::<ParserNumber, Error>(float_at(positive, 0, 0, start as int, e))
                    && final(self).index() == e
            },
    {
        if significand != 0 && positive_exp {
            return Err(self.error(ErrorCode::NumberOutOfRange));
        }
        self.skip_digits();
        let end = self.read.byte_offset();
        Ok(ParserNumber::F64(FloatParts { positive, significand: 0, exponent: 0, start, end }))
    }
}

/// The open arrays and objects while skipping: those on the stack,
/// then the innermost one if it is held apart.
pub open spec fn stack_of(stack: Seq<u8>, enclosing: Option<u8>) -> Seq<u8> {
    match enclosing {
        Some(f) => stack.push(f),
        None => stack,
    }
}

/// A byte that may follow a value that does not end itself (a number or a
/// literal) in a stream of values.
pub open spec fn ends_value(b: u8) -> bool {
    is_ws(b) || b == 34 || b == 91 || b == 93 || b == 123 || b == 125 || b == 44 || b == 58
}

/// Reads the whole input as one JSON value followed only by whitespace
/// (`nan_as_null`: the bare token `nan` reads as `null`): the events of the
/// value.
pub fn read_document(v: &[u8], nan_as_null: bool) -> (r: Result<Vec<Event>, Error>)
    requires
        v@.len() <= isize::MAX,
    ensures
        match spec_document(v@, nan_as_null) {
            Ok(t) => r is Ok && tokens(r->Ok_0@) == t,
            Err((e, _)) => r == Err::<Vec<Event>, Error>(e),
        },
{
    let mut de = Deserializer::from_slice(v);
    if nan_as_null {
        de.read_nan_as_null();
    }
    let mut out: Vec<Event> = Vec::new();
    proof {
        assert(tokens(out@) =~= seq![]);
    }
    match de.deserialize_any(&mut out) {
        Ok(()) => {
            proof {
                assert(tokens(out@) =~= seq![] + tokens(out@));
            }
            match de.end() {
                Ok(()) => Ok(out),
                Err(e) => Err(e),
            }
        },
        Err(e) => Err(e),
    }
}

/// Reads the whole input as one JSON value followed only by whitespace:
/// the events of the value.
pub fn from_slice(v: &[u8]) -> (r: Result<Vec<Event>, Error>)
    requires
        v@.len() <= isize::MAX,
    ensures
        match spec_document(v@, false) {
            Ok(t) => r is Ok && tokens(r->Ok_0@) == t,
            Err((e, _)) => r == Err::<Vec<Event>, Error>(e),
        },
{
    read_document(v, false)
}

/// Reads the whole string as one JSON value followed only by whitespace:
/// the events of the value.
pub fn from_str(s: &str) -> (r: Result<Vec<Event>, Error>)
    requires
        s.spec_bytes().len() <= isize::MAX,
    ensures
        match spec_document(s.spec_bytes(), false) {
            Ok(t) => r is Ok && tokens(r->Ok_0@) == t,
            Err((e, _)) => r == Err::<Vec<Event>, Error>(e),
        },
{
    from_slice(s.as_bytes())
}

/// Reads a stream of JSON values, one after another, separated by
/// whitespace where a value does not end itself.
pub struct StreamDeserializer<'a> {
    de: Deserializer<'a>,
    offset: usize,
}

impl<'a> StreamDeserializer<'a> {
    pub closed spec fn input(&self) -> Seq<u8> {
        self.de.input()
    }

    pub closed spec fn index(&self) -> int {
        self.de.index()
    }

    pub closed spec fn offset(&self) -> int {
        self.offset as int
    }

    pub closed spec fn depth(&self) -> int {
        self.de.depth()
    }

    pub closed spec fn unbounded(&self) -> bool {
        self.de.unbounded()
    }

    pub closed spec fn nan_null(&self) -> bool {
        self.de.nan_null()
    }

    pub closed spec fn wf(&self) -> bool {
        &&& self.de.wf()
        &&& 0 <= self.offset <= self.de.index()
    }

    /// A well-formed stream's offset is at most where it stands, which is
    /// within its input.
    pub proof fn lemma_offset_in_input(&self)
        requires
            self.wf(),
        ensures
            0 <= self.offset() <= self.index() <= self.input().len(),
    {
        self.de.lemma_index_in_input();
    }

    /// A stream over the given reader, from where it stands.
    pub fn new(read: SliceRead<'a>) -> (st: Self)
        requires
            read.wf(),
        ensures
            st.wf(),
            st.input() == read.input(),
            st.index() == read.index(),
            st.offset() == read.index(),
            st.depth() == 128,
            !st.unbounded(),
            !st.nan_null(),
    {
        let offset = read.byte_offset();
        StreamDeserializer { de: Deserializer::new(read), offset }
    }

    /// The number of bytes read up to the end of the last value read, or of
    /// the whitespace after it once the input is used up.
    pub fn byte_offset(&self) -> (n: usize)
        requires
            self.wf(),
        ensures
            n == self.offset(),
    {
        self.offset
    }

    /// Checks that the byte after a value that does not end itself can
    /// follow it.
    fn peek_end_of_value(&mut self) -> (r: Result<(), Error>)
        requires
            old(self).wf(),
        ensures
            *final(self) == *old(self),
            match byte_at(old(self).input(), old(self).index()) {
                Some(b) => if ends_value(b) {
                    r is Ok
                } else {
                    r == Err::<(), Error>(
                        err_at(old(self).input(), ErrorCode::TrailingCharacters, peek_pos(old(self).input(), old(self).index())),
                    )
                },
                None => r is Ok,
            },
    {
        match self.de.peek() {
            Some(b) => {
                if b == 32u8 || b == 10u8 || b == 9u8 || b == 13u8 || b == 34u8 || b == 91u8 || b == 93u8
                    || b == 123u8 || b == 125u8 || b == 44u8 || b == 58u8 {
                    Ok(())
                } else {
                    let position = self.de.read.peek_position();
                    Err(Error::syntax(ErrorCode::TrailingCharacters, position.line, position.column))
                }
            },
            None => Ok(()),
        }
    }

    /// Reads the next value of the stream: `None` once only whitespace is
    /// left. After a failure the rest of the input is dropped, so that the
    /// stream ends.
    pub fn next(&mut self) -> (r: Option<Result<Vec<Event>, Error>>)
        requires
            old(self).wf(),
            old(self).unbounded() || old(self).depth() >= 1 || !opens_container(old(self).input(), old(self).index(), true, true),
        ensures
            final(self).wf(),
            old(self).offset() <= final(self).offset() <= final(self).index() <= final(self).input().len(),
            final(self).input().len() <= old(self).input().len(),
            final(self).unbounded() == old(self).unbounded(),
            final(self).nan_null() == old(self).nan_null(),
            ({
                let s = old(self).input();
                let j = ws_end(s, old(self).index());
                if j >= s.len() {
                    &&& r is None
                    &&& final(self).input() == s
                    &&& final(self).index() == j
                    &&& final(self).offset() == j
                    &&& final(self).depth() == old(self).depth()
                } else {
                    let delimited = s[j] == 91 || s[j] == 34 || s[j] == 123;
                    match spec_value(s, j, old(self).depth(), old(self).unbounded(), old(self).nan_null()) {
                        Ok((t, q)) => {
                            &&& r is Some
                            &&& final(self).input() == s
                            &&& final(self).index() == q
                            &&& final(self).offset() == q
                            &&& final(self).depth() == old(self).depth()
                            &&& if delimited || q >= s.len() || ends_value(s[q]) {
                                r->Some_0 is Ok && tokens(r->Some_0->Ok_0@) == t
                            } else {
                                r->Some_0 == Err::<Vec<Event>, Error>(
                                    err_at(s, ErrorCode::TrailingCharacters, peek_pos(s, q)),
                                )
                            }
                        },
                        Err((e, q)) => {
                            &&& r == Some(Err::<Vec<Event>, Error>(e))
                            &&& final(self).input() == s.subrange(0, q)
                            &&& final(self).index() == q
                            &&& final(self).offset() == j
                            &&& final(self).depth() == old(self).depth() - recursion_cost(Err(e))
                        },
                    }
                }
            }),
    {
        let ghost s = self.input();
        let ghost i = self.index();
        proof {
            lemma_ws_end(s, i);
        }
        match self.de.parse_whitespace() {
            None => {
                self.offset = self.de.read.byte_offset();
                None
            },
            Some(b) => {
                let self_delineated_value = b == 91u8 || b == 34u8 || b == 123u8;
                self.offset = self.de.read.byte_offset();
                let mut out: Vec<Event> = Vec::new();
                proof {
                    assert(tokens(out@) =~= seq![]);
                }
                let result = self.de.deserialize_any(&mut out);
                Some(
                    match result {
                        Ok(()) => {
                            proof {
                                assert(tokens(out@) =~= seq![] + tokens(out@));
                            }
                            self.offset = self.de.read.byte_offset();
                            if self_delineated_value {
                                Ok(out)
                            } else {
                                match self.peek_end_of_value() {
                                    Ok(()) => Ok(out),
                                    Err(e) => Err(e),
                                }
                            }
                        },
                        Err(e) => {
                            self.de.read.set_failed();
                            Err(e)
                        },
                    },
                )
            },
        }
    }
}

/// `String::push`, which appends one character to a string.
#[verifier::external_body]
fn push_char(buf: &mut String, c: char)
    ensures
        final(buf)@ == old(buf)@.push(c),
{
    buf.push(c);
}

/// `a + b`, clamped to the range of `i32`.
fn saturating_add_i32(a: i32, b: i32) -> (r: i32)
    ensures
        r == sat_i32(a + b),
{
    let v: i64 = a as i64 + b as i64;
    if v > i32::MAX as i64 {
        i32::MAX
    } else if v < i32::MIN as i64 {
        i32::MIN
    } else {
        v as i32
    }
}

/// `a - b`, clamped to the range of `i32`.
fn saturating_sub_i32(a: i32, b: i32) -> (r: i32)
    ensures
        r == sat_i32(a - b),
{
    let v: i64 = a as i64 - b as i64;
    if v > i32::MAX as i64 {
        i32::MAX
    } else if v < i32::MIN as i64 {
        i32::MIN
    } else {
        v as i32
    }
}

} // verus!
