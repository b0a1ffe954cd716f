use vstd::prelude::*;
use vstd::string::StringSliceAdditionalSpecFns;
use crate::json::error::spec_error_text;
use crate::json::value::{Event, Token, tokens, spec_document};
use super::error::DeserializeError;
use super::input::{PyInput, spec_input, read_input_to_buf, utf8_str};
use crate::opt::{Opt, NAN_AS_NULL};

verus! {

/// What reading the document with bytes `b` gives (`nan`: the bare token
/// `nan` reads as `null`): its events, or an error that keeps the JSON
/// reader's message, line and column and the document.
pub open spec fn doc_outcome(b: Seq<u8>, nan: bool, r: Result<Vec<Event>, DeserializeError>) -> bool {
    match spec_document(b, nan) {
        Ok(t) => r is Ok && tokens(r->Ok_0@) == t,
        Err((e, _)) => {
            &&& r is Err
            &&& r->Err_0.message@ == spec_error_text(e)
            &&& r->Err_0.line == e.line
            &&& r->Err_0.column == e.column
            &&& r->Err_0.data matches Some(d) && d.spec_bytes() == b
            &&& r->Err_0.pos == 0
        },
    }
}

/// What reading the document `data` gives.
pub open spec fn read_outcome<'a>(data: &'a str, nan: bool, r: Result<Vec<Event>, DeserializeError<'a>>) -> bool {
    &&& doc_outcome(data.spec_bytes(), nan, r)
    &&& r is Err ==> r->Err_0.data == Some(data)
}

/// What reading a document gives is fixed by its text and the options:
/// two results that both meet [`read_outcome`], such as those of
/// [`Deserializer::deserialize`] and [`deserialize_json`] on the same text,
/// hold the same events or the same error.
pub proof fn lemma_read_outcome_unique<'a>(
    data: &'a str,
    nan: bool,
    r1: Result<Vec<Event>, DeserializeError<'a>>,
    r2: Result<Vec<Event>, DeserializeError<'a>>,
)
    requires
        read_outcome(data, nan, r1),
        read_outcome(data, nan, r2),
    ensures
        r1 is Ok <==> r2 is Ok,
        r1 is Ok ==> tokens(r1->Ok_0@) == tokens(r2->Ok_0@),
        r1 is Err ==> {
            &&& r1->Err_0.message@ == r2->Err_0.message@
            &&& r1->Err_0.line == r2->Err_0.line
            &&& r1->Err_0.column == r2->Err_0.column
            &&& r1->Err_0.data == r2->Err_0.data
            &&& r1->Err_0.pos == r2->Err_0.pos
        },
{
}

/// Reads a whole document with the JSON reader (`nan_as_null`: the bare
/// token `nan` reads as `null`).
pub fn deserialize_json<'a>(data: &'a str, nan_as_null: bool) -> (r: Result<Vec<Event>, DeserializeError<'a>>)
    requires
        data.spec_bytes().len() <= isize::MAX,
    ensures
        read_outcome(data, nan_as_null, r),
{
    match crate::json::de::read_document(data.as_bytes(), nan_as_null) {
        Ok(events) => Ok(events),
        Err(e) => Err(DeserializeError::from_json(e.to_string(), e.line, e.column, data)),
    }
}

/// A document to read: UTF-8 text that is not empty.
pub struct Deserializer<'a> {
    buffer: &'a str,
}

impl<'a> Deserializer<'a> {
    pub closed spec fn text(&self) -> &'a str {
        self.buffer
    }

    /// The document an input holds, or the error it gives.
    pub fn from_pyobject(input: PyInput<'a>) -> (r: Result<Self, DeserializeError<'static>>)
        ensures
            match spec_input(input) {
                Ok(b) => r is Ok && r->Ok_0.text().spec_bytes() == b,
                Err(m) => r is Err && r->Err_0.message@ == m && r->Err_0.line == 0 && r->Err_0.data is None,
            },
    {
        match read_input_to_buf(input) {
            Ok(buffer) => Ok(Deserializer { buffer: utf8_str(buffer) }),
            Err(e) => Err(e),
        }
    }

    /// Reads the document; with [`NAN_AS_NULL`] among the options the bare
    /// token `nan` reads as `null`. The empty array, the empty object and
    /// the empty string are recognized without running the reader, with the
    /// same result.
    pub fn deserialize(&self, opts: Opt) -> (r: Result<Vec<Event>, DeserializeError<'a>>)
        requires
            self.text().spec_bytes().len() <= isize::MAX,
        ensures
            read_outcome(self.text(), opts & NAN_AS_NULL != 0, r),
    {
        let bytes = self.buffer.as_bytes();
        if bytes.len() == 2 {
            if bytes[0] == 91u8 && bytes[1] == 93u8 {
                let mut v: Vec<Event> = Vec::new();
                v.push(Event::StartArray);
                v.push(Event::EndArray);
                proof {
                    assert(bytes@ =~= seq![91u8, 93u8]);
                    crate::json::value::lemma_empty_array(bytes@, opts & NAN_AS_NULL != 0);
                    assert(tokens(v@) =~= seq![Token::StartArray, Token::EndArray]);
                }
                return Ok(v);
            }
            if bytes[0] == 123u8 && bytes[1] == 125u8 {
                let mut v: Vec<Event> = Vec::new();
                v.push(Event::StartObject);
                v.push(Event::EndObject);
                proof {
                    assert(bytes@ =~= seq![123u8, 125u8]);
                    crate::json::value::lemma_empty_object(bytes@, opts & NAN_AS_NULL != 0);
                    assert(tokens(v@) =~= seq![Token::StartObject, Token::EndObject]);
                }
                return Ok(v);
            }
            if bytes[0] == 34u8 && bytes[1] == 34u8 {
                let mut v: Vec<Event> = Vec::new();
                v.push(Event::Str(Vec::new()));
                proof {
                    assert(bytes@ =~= seq![34u8, 34u8]);
                    crate::json::value::lemma_empty_string(bytes@, opts & NAN_AS_NULL != 0);
                    assert(tokens(v@) =~= seq![Token::Str(seq![])]);
                }
                return Ok(v);
            }
        }
        deserialize_json(self.buffer, opts & NAN_AS_NULL != 0)
    }
}

/// Reads the document an input holds, under the options.
pub fn deserialize<'a>(input: PyInput<'a>, opts: Opt) -> (r: Result<Vec<Event>, DeserializeError<'a>>)
    requires
        spec_input(input) matches Ok(b) ==> b.len() <= isize::MAX,
    ensures
        match spec_input(input) {
            Ok(b) => doc_outcome(b, opts & NAN_AS_NULL != 0, r),
            Err(m) => r is Err && r->Err_0.message@ == m && r->Err_0.line == 0 && r->Err_0.data is None,
        },
{
    let deserializer = match Deserializer::from_pyobject(input) {
        Ok(d) => d,
        Err(e) => {
            return Err(e);
        },
    };
    deserializer.deserialize(opts)
}

} // verus!
