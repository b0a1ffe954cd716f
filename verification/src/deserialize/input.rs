use vstd::prelude::*;
use vstd::string::{StringExecFns, StringSliceAdditionalSpecFns};
use vstd::utf8::valid_utf8;
use crate::utf8::is_valid_utf8;
use super::error::DeserializeError;

verus! {

/// What a Python object handed to `loads` holds, as far as reading it goes:
/// the bytes of a `bytes`, `bytearray` or `memoryview` (with whether its
/// buffer is C-contiguous), or the UTF-8 text of a `str` (none when the
/// string cannot be encoded, as with lone surrogates), or another type.
pub enum PyInput<'a> {
    Bytes(&'a [u8]),
    Str(Option<&'a str>),
    MemoryView { contiguous: bool, data: &'a [u8] },
    ByteArray(&'a [u8]),
    Other,
}

/// The message for text that is not valid UTF-8.
pub open spec fn invalid_str_message() -> Seq<char> {
    "str is not valid UTF-8: surrogates not allowed"@
}

/// The message for an object of a type that cannot be read.
pub open spec fn input_type_message() -> Seq<char> {
    "Input must be bytes, bytearray, memoryview, or str"@
}

/// The message for a memoryview whose buffer is not C-contiguous.
pub open spec fn contiguous_message() -> Seq<char> {
    "Input type memoryview must be a C contiguous buffer"@
}

/// The message for an empty document.
pub open spec fn empty_message() -> Seq<char> {
    "Input is a zero-length, empty document"@
}

/// The bytes an input holds, or the message of the error it gives.
pub open spec fn spec_input(input: PyInput) -> Result<Seq<u8>, Seq<char>> {
    let buf: Result<Seq<u8>, Seq<char>> = match input {
        PyInput::Bytes(b) => if valid_utf8(b@) { Ok(b@) } else { Err(invalid_str_message()) },
        PyInput::Str(s) => match s {
            Some(t) => Ok(t.spec_bytes()),
            None => Err(invalid_str_message()),
        },
        PyInput::MemoryView { contiguous, data } => if !contiguous {
            Err(contiguous_message())
        } else if valid_utf8(data@) {
            Ok(data@)
        } else {
            Err(invalid_str_message())
        },
        PyInput::ByteArray(b) => if valid_utf8(b@) { Ok(b@) } else { Err(invalid_str_message()) },
        PyInput::Other => Err(input_type_message()),
    };
    match buf {
        Ok(b) => if b.len() == 0 { Err(empty_message()) } else { Ok(b) },
        Err(m) => Err(m),
    }
}

/// The bytes of a document to read: the input must be text that is valid
/// UTF-8 and not empty.
pub fn read_input_to_buf<'a>(input: PyInput<'a>) -> (r: Result<&'a [u8], DeserializeError<'static>>)
    ensures
        match spec_input(input) {
            Ok(b) => r is Ok && r->Ok_0@ == b && valid_utf8(b),
            Err(m) => r is Err && r->Err_0.message@ == m && r->Err_0.line == 0 && r->Err_0.data is None,
        },
{
    let buffer: &'a [u8] = match input {
        PyInput::Bytes(b) => {
            if !is_valid_utf8(b) {
                return Err(DeserializeError::invalid(String::from_str("str is not valid UTF-8: surrogates not allowed")));
            }
            b
        },
        PyInput::Str(s) => match s {
            Some(t) => {
                proof {
                    vstd::utf8::encode_utf8_valid_utf8(t@);
                }
                t.as_bytes()
            },
            None => {
                return Err(DeserializeError::invalid(String::from_str("str is not valid UTF-8: surrogates not allowed")));
            },
        },
        PyInput::MemoryView { contiguous, data } => {
            if !contiguous {
                return Err(DeserializeError::invalid(String::from_str("Input type memoryview must be a C contiguous buffer")));
            }
            if !is_valid_utf8(data) {
                return Err(DeserializeError::invalid(String::from_str("str is not valid UTF-8: surrogates not allowed")));
            }
            data
        },
        PyInput::ByteArray(b) => {
            if !is_valid_utf8(b) {
                return Err(DeserializeError::invalid(String::from_str("str is not valid UTF-8: surrogates not allowed")));
            }
            b
        },
        PyInput::Other => {
            return Err(DeserializeError::invalid(String::from_str("Input must be bytes, bytearray, memoryview, or str")));
        },
    };
    if buffer.len() == 0 {
        Err(DeserializeError::invalid(String::from_str("Input is a zero-length, empty document")))
    } else {
        Ok(buffer)
    }
}

/// The text of bytes that are valid UTF-8, with `std::str::from_utf8`,
/// which the standard library documents as succeeding exactly on valid
/// UTF-8 and returning the same bytes as a `str`.
#[verifier::external_body]
pub(crate) fn utf8_str(bytes: &[u8]) -> (s: &str)
    requires
        valid_utf8(bytes@),
    ensures
        s.spec_bytes() == bytes@,
{
    std::str::from_utf8(bytes).unwrap()
}

} // verus!
