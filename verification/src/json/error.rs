use vstd::prelude::*;
use vstd::string::StringExecFns;

verus! {

/// The kinds of syntax error that the JSON reader reports.
#[derive(Clone, Copy, Debug, PartialEq, Eq, Structural)]
pub enum ErrorCode {
    EofWhileParsingList,
    EofWhileParsingObject,
    EofWhileParsingString,
    EofWhileParsingValue,
    ExpectedColon,
    ExpectedListCommaOrEnd,
    ExpectedObjectCommaOrEnd,
    ExpectedSomeIdent,
    ExpectedSomeValue,
    InvalidEscape,
    InvalidNumber,
    NumberOutOfRange,
    InvalidUnicodeCodePoint,
    ControlCharacterWhileParsingString,
    KeyMustBeAString,
    LoneLeadingSurrogateInHexEscape,
    TrailingComma,
    TrailingCharacters,
    UnexpectedEndOfHexEscape,
    RecursionLimitExceeded,
}

/// The text that describes an error code.
pub open spec fn spec_code_message(code: ErrorCode) -> Seq<char> {
    match code {
        ErrorCode::EofWhileParsingList => "EOF while parsing a list"@,
        ErrorCode::EofWhileParsingObject => "EOF while parsing an object"@,
        ErrorCode::EofWhileParsingString => "EOF while parsing a string"@,
        ErrorCode::EofWhileParsingValue => "EOF while parsing a value"@,
        ErrorCode::ExpectedColon => "expected `:`"@,
        ErrorCode::ExpectedListCommaOrEnd => "expected `,` or `]`"@,
        ErrorCode::ExpectedObjectCommaOrEnd => "expected `,` or `}`"@,
        ErrorCode::ExpectedSomeIdent => "expected ident"@,
        ErrorCode::ExpectedSomeValue => "expected value"@,
        ErrorCode::InvalidEscape => "invalid escape"@,
        ErrorCode::InvalidNumber => "invalid number"@,
        ErrorCode::NumberOutOfRange => "number out of range"@,
        ErrorCode::InvalidUnicodeCodePoint => "invalid unicode code point"@,
        ErrorCode::ControlCharacterWhileParsingString => "control character (\\u0000-\\u001F) found while parsing a string"@,
        ErrorCode::KeyMustBeAString => "key must be a string"@,
        ErrorCode::LoneLeadingSurrogateInHexEscape => "lone leading surrogate in hex escape"@,
        ErrorCode::TrailingComma => "trailing comma"@,
        ErrorCode::TrailingCharacters => "trailing characters"@,
        ErrorCode::UnexpectedEndOfHexEscape => "unexpected end of hex escape"@,
        ErrorCode::RecursionLimitExceeded => "recursion limit exceeded"@,
    }
}

impl ErrorCode {
    /// The text that describes this error code.
    pub fn message(self) -> (msg: &'static str)
        ensures
            msg@ == spec_code_message(self),
    {
        match self {
            ErrorCode::EofWhileParsingList => "EOF while parsing a list",
            ErrorCode::EofWhileParsingObject => "EOF while parsing an object",
            ErrorCode::EofWhileParsingString => "EOF while parsing a string",
            ErrorCode::EofWhileParsingValue => "EOF while parsing a value",
            ErrorCode::ExpectedColon => "expected `:`",
            ErrorCode::ExpectedListCommaOrEnd => "expected `,` or `]`",
            ErrorCode::ExpectedObjectCommaOrEnd => "expected `,` or `}`",
            ErrorCode::ExpectedSomeIdent => "expected ident",
            ErrorCode::ExpectedSomeValue => "expected value",
            ErrorCode::InvalidEscape => "invalid escape",
            ErrorCode::InvalidNumber => "invalid number",
            ErrorCode::NumberOutOfRange => "number out of range",
            ErrorCode::InvalidUnicodeCodePoint => "invalid unicode code point",
            ErrorCode::ControlCharacterWhileParsingString => "control character (\\u0000-\\u001F) found while parsing a string",
            ErrorCode::KeyMustBeAString => "key must be a string",
            ErrorCode::LoneLeadingSurrogateInHexEscape => "lone leading surrogate in hex escape",
            ErrorCode::TrailingComma => "trailing comma",
            ErrorCode::TrailingCharacters => "trailing characters",
            ErrorCode::UnexpectedEndOfHexEscape => "unexpected end of hex escape",
            ErrorCode::RecursionLimitExceeded => "recursion limit exceeded",
        }
    }
}

/// The decimal digit `d` as a character.
pub open spec fn digit_char(d: int) -> char {
    (48 + d) as char
}

/// The decimal digits of `n`, most significant first.
pub open spec fn decimal(n: nat) -> Seq<char>
    decreases n,
{
    if n < 10 {
        seq![digit_char(n as int)]
    } else {
        decimal(n / 10) + seq![digit_char((n % 10) as int)]
    }
}

/// The text of a syntax error, as it is shown: the message, then where it
/// happened when the line is known.
pub open spec fn spec_error_text(e: Error) -> Seq<char> {
    if e.line == 0 {
        spec_code_message(e.code)
    } else {
        spec_code_message(e.code) + " at line "@ + decimal(e.line as nat) + " column "@ + decimal(
            e.column as nat,
        )
    }
}

/// The one-character text of a decimal digit.
fn digit_str(d: usize) -> (s: &'static str)
    requires
        d < 10,
    ensures
        s@ == seq![digit_char(d as int)],
{
    proof {
        reveal_strlit("0");
        reveal_strlit("1");
        reveal_strlit("2");
        reveal_strlit("3");
        reveal_strlit("4");
        reveal_strlit("5");
        reveal_strlit("6");
        reveal_strlit("7");
        reveal_strlit("8");
        reveal_strlit("9");
    }
    if d == 0 {
        "0"
    } else if d == 1 {
        "1"
    } else if d == 2 {
        "2"
    } else if d == 3 {
        "3"
    } else if d == 4 {
        "4"
    } else if d == 5 {
        "5"
    } else if d == 6 {
        "6"
    } else if d == 7 {
        "7"
    } else if d == 8 {
        "8"
    } else {
        "9"
    }
}

/// Appends the decimal digits of `n` to `out`.
pub fn push_decimal(out: &mut String, n: usize)
    ensures
        final(out)@ == old(out)@ + decimal(n as nat),
    decreases n,
{
    if n >= 10 {
        push_decimal(out, n / 10);
    }
    out.append(digit_str(n % 10));
    proof {
        assert(out@ =~= old(out)@ + decimal(n as nat));
    }
}

/// A syntax error: what went wrong, and where (line from 1, column from 0,
/// as byte counts; line 0 means the position is not known).
#[derive(Clone, Copy, Debug, PartialEq, Eq, Structural)]
pub struct Error {
    pub code: ErrorCode,
    pub line: usize,
    pub column: usize,
}

impl Error {
    /// A syntax error at the given line and column.
    pub fn syntax(code: ErrorCode, line: usize, column: usize) -> (err: Error)
        ensures
            err == (Error { code, line, column }),
    {
        Error { code, line, column }
    }

    /// The line of the error, counted from 1.
    pub fn line(&self) -> (line: usize)
        ensures
            line == self.line,
    {
        self.line
    }

    /// The column of the error, counted from 0 within its line.
    pub fn column(&self) -> (column: usize)
        ensures
            column == self.column,
    {
        self.column
    }

    /// The text of the error: its message, then its line and column when
    /// the line is known.
    pub fn to_string(&self) -> (text: String)
        ensures
            text@ == spec_error_text(*self),
    {
        let mut text = String::from_str(self.code.message());
        if self.line == 0 {
            return text;
        }
        text.append(" at line ");
        push_decimal(&mut text, self.line);
        text.append(" column ");
        push_decimal(&mut text, self.column);
        text
    }

    /// Whether the input ended before a complete value was read.
    pub fn is_eof(&self) -> (eof: bool)
        ensures
            eof == (self.code is EofWhileParsingList || self.code is EofWhileParsingObject
                || self.code is EofWhileParsingString || self.code is EofWhileParsingValue),
    {
        match self.code {
            ErrorCode::EofWhileParsingList | ErrorCode::EofWhileParsingObject
            | ErrorCode::EofWhileParsingString | ErrorCode::EofWhileParsingValue => true,
            _ => false,
        }
    }
}

} // verus!
