use vstd::prelude::*;
use crate::opt::{Opt, SERIALIZE_NUMPY, STRICT_INTEGER, SORT_OR_NON_STR_KEYS, NON_STR_KEYS, BIG_INTEGER};
use crate::json::number::integer_text;
use crate::deserialize::number::is_integer_text;
use crate::exc::SerializeError;

verus! {

/// How an integer is written.
#[derive(Clone, Copy, Debug, PartialEq, Eq, Structural)]
pub enum IntText {
    /// As this 64-bit value.
    Value(i64),
    /// As the exact decimal digits of the integer, which does not fit in 64
    /// bits.
    Digits,
}

// How each Python object is serialized. The objects themselves stay on the
// Python side: what is decided here is taken from plain facts read from
// them, and the walk over them runs the decisions.

/// `[-(2**53)+1, (2**53)-1]`, the integers that JSON numbers hold exactly.
pub const STRICT_INT_MIN: i64 = -9007199254740991;
pub const STRICT_INT_MAX: i64 = 9007199254740991;

/// The nesting depth of containers, and of default calls, that is refused.
pub const RECURSION_LIMIT: u8 = 255;

/// Marks a dict that holds a dataclass instance's fields: its keys are
/// written as they come.
pub const DATACLASS_DICT_PATH: Opt = 1 << 30;

/// How an object is serialized, by its type.
#[derive(Clone, Copy, Debug, PartialEq, Eq, Structural)]
pub enum ObType {
    Str,
    Int,
    Bool,
    Null,
    Float,
    List,
    Dict,
    Datetime,
    Date,
    Time,
    Tuple,
    Uuid,
    Dataclass,
    Array,
    Enum,
    StrSubclass,
    Unknown,
}

/// The exact type of an object, when it is one of those known by identity.
#[derive(Clone, Copy, Debug, PartialEq, Eq, Structural)]
pub enum ExactType {
    Str,
    Int,
    Bool,
    NoneType,
    Float,
    List,
    Dict,
    Datetime,
    Date,
    Time,
    Tuple,
    Uuid,
    Other,
}

/// What is known of an object's type: its exact type, whether its type's
/// metatype is `EnumMeta`, which builtin it subclasses, whether the type
/// has dataclass fields, and whether it is numpy's array type.
#[derive(Clone, Copy, Debug, PartialEq, Eq, Structural)]
pub struct TypeFacts {
    pub exact: ExactType,
    pub enum_meta: bool,
    pub str_subclass: bool,
    pub long_subclass: bool,
    pub list_subclass: bool,
    pub dict_subclass: bool,
    pub dataclass_fields: bool,
    pub numpy_array: bool,
}

/// The types less often met, tested in this order.
pub open spec fn spec_obtype_unlikely(f: TypeFacts, opts: Opt) -> ObType {
    if f.exact == ExactType::Date {
        ObType::Date
    } else if f.exact == ExactType::Time {
        ObType::Time
    } else if f.exact == ExactType::Tuple {
        ObType::Tuple
    } else if f.exact == ExactType::Uuid {
        ObType::Uuid
    } else if f.enum_meta {
        ObType::Enum
    } else if f.str_subclass {
        ObType::StrSubclass
    } else if f.long_subclass {
        ObType::Int
    } else if f.list_subclass {
        ObType::List
    } else if f.dict_subclass {
        ObType::Dict
    } else if f.dataclass_fields {
        ObType::Dataclass
    } else if opts & SERIALIZE_NUMPY != 0 && f.numpy_array {
        ObType::Array
    } else {
        ObType::Unknown
    }
}

/// How an object of a type is serialized: the common exact types first.
pub open spec fn spec_obtype(f: TypeFacts, opts: Opt) -> ObType {
    match f.exact {
        ExactType::Str => ObType::Str,
        ExactType::Int => ObType::Int,
        ExactType::Bool => ObType::Bool,
        ExactType::NoneType => ObType::Null,
        ExactType::Float => ObType::Float,
        ExactType::List => ObType::List,
        ExactType::Dict => ObType::Dict,
        ExactType::Datetime => ObType::Datetime,
        _ => spec_obtype_unlikely(f, opts),
    }
}

/// An object whose exact type is one of the builtins known by identity is
/// written as that type, whatever else is known of it and whatever the
/// options: a `bool` as a boolean (never as an integer, though `bool`
/// subclasses `int`), a `str` as a string, an `int` as an integer, `None`
/// as null, and so on.
pub proof fn lemma_exact_types_classified(f: TypeFacts, opts: Opt)
    ensures
        f.exact == ExactType::Bool ==> spec_obtype(f, opts) == ObType::Bool,
        f.exact == ExactType::Int ==> spec_obtype(f, opts) == ObType::Int,
        f.exact == ExactType::Str ==> spec_obtype(f, opts) == ObType::Str,
        f.exact == ExactType::NoneType ==> spec_obtype(f, opts) == ObType::Null,
        f.exact == ExactType::Float ==> spec_obtype(f, opts) == ObType::Float,
        f.exact == ExactType::List ==> spec_obtype(f, opts) == ObType::List,
        f.exact == ExactType::Dict ==> spec_obtype(f, opts) == ObType::Dict,
        f.exact == ExactType::Datetime ==> spec_obtype(f, opts) == ObType::Datetime,
        f.exact == ExactType::Date ==> spec_obtype(f, opts) == ObType::Date,
        f.exact == ExactType::Time ==> spec_obtype(f, opts) == ObType::Time,
        f.exact == ExactType::Tuple ==> spec_obtype(f, opts) == ObType::Tuple,
        f.exact == ExactType::Uuid ==> spec_obtype(f, opts) == ObType::Uuid,
        spec_obtype(f, opts) == ObType::Bool ==> f.exact == ExactType::Bool,
        spec_obtype(f, opts) == ObType::Null ==> f.exact == ExactType::NoneType,
        spec_obtype(f, opts) == ObType::Float ==> f.exact == ExactType::Float,
{
}

/// An object of no type known by identity is written by what else is known
/// of its type, in this order of precedence: an enum by its value, then a
/// subclass of `str`, `int`, `list` or `dict` as that builtin, then a
/// dataclass by its fields, then a numpy array (only when numpy
/// serialization is asked for); anything else goes to the default function.
pub proof fn lemma_other_types_classified(f: TypeFacts, opts: Opt)
    requires
        f.exact == ExactType::Other,
    ensures
        f.enum_meta ==> spec_obtype(f, opts) == ObType::Enum,
        !f.enum_meta && f.str_subclass ==> spec_obtype(f, opts) == ObType::StrSubclass,
        !f.enum_meta && !f.str_subclass && f.long_subclass ==> spec_obtype(f, opts) == ObType::Int,
        !f.enum_meta && !f.str_subclass && !f.long_subclass && f.list_subclass ==> spec_obtype(f, opts)
            == ObType::List,
        !f.enum_meta && !f.str_subclass && !f.long_subclass && !f.list_subclass && f.dict_subclass
            ==> spec_obtype(f, opts) == ObType::Dict,
        !f.enum_meta && !f.str_subclass && !f.long_subclass && !f.list_subclass && !f.dict_subclass
            && f.dataclass_fields ==> spec_obtype(f, opts) == ObType::Dataclass,
        !f.enum_meta && !f.str_subclass && !f.long_subclass && !f.list_subclass && !f.dict_subclass
            && !f.dataclass_fields ==> spec_obtype(f, opts) == (if f.numpy_array && opts & SERIALIZE_NUMPY != 0 {
            ObType::Array
        } else {
            ObType::Unknown
        }),
{
}

/// A boolean is written as `true` or `false`: its plan reads it as a
/// boolean, not as an integer.
pub proof fn lemma_bool_plan(s: SerializePyObject, len: usize)
    requires
        s.obtype == ObType::Bool,
    ensures
        spec_plan(s, len) == Ok::<Plan, SerializeError>(Plan::Bool),
{
}

/// How an object of the given type is serialized.
pub fn pyobject_to_obtype(f: TypeFacts, opts: Opt) -> (t: ObType)
    ensures
        t == spec_obtype(f, opts),
{
    match f.exact {
        ExactType::Str => ObType::Str,
        ExactType::Int => ObType::Int,
        ExactType::Bool => ObType::Bool,
        ExactType::NoneType => ObType::Null,
        ExactType::Float => ObType::Float,
        ExactType::List => ObType::List,
        ExactType::Dict => ObType::Dict,
        ExactType::Datetime => ObType::Datetime,
        _ => pyobject_to_obtype_unlikely(f, opts),
    }
}

/// How an object of one of the less common types is serialized.
pub fn pyobject_to_obtype_unlikely(f: TypeFacts, opts: Opt) -> (t: ObType)
    ensures
        t == spec_obtype_unlikely(f, opts),
{
    if f.exact == ExactType::Date {
        ObType::Date
    } else if f.exact == ExactType::Time {
        ObType::Time
    } else if f.exact == ExactType::Tuple {
        ObType::Tuple
    } else if f.exact == ExactType::Uuid {
        ObType::Uuid
    } else if f.enum_meta {
        ObType::Enum
    } else if f.str_subclass {
        ObType::StrSubclass
    } else if f.long_subclass {
        ObType::Int
    } else if f.list_subclass {
        ObType::List
    } else if f.dict_subclass {
        ObType::Dict
    } else if f.dataclass_fields {
        ObType::Dataclass
    } else if opts & SERIALIZE_NUMPY != 0 && f.numpy_array {
        ObType::Array
    } else {
        ObType::Unknown
    }
}

/// One object to serialize: how, with which options, how many default
/// calls and how many containers lead to it, and whether a default function
/// was given.
#[derive(Clone, Copy, Debug, PartialEq, Eq, Structural)]
pub struct SerializePyObject {
    pub obtype: ObType,
    pub opts: Opt,
    pub default_calls: u8,
    pub recursion: u8,
    pub has_default: bool,
}

/// What to do with an object, once its type is known.
#[derive(Clone, Copy, Debug, PartialEq, Eq, Structural)]
pub enum Plan {
    /// Write the text of a `str` (or of a subclass, read another way).
    Str { subclass: bool },
    /// Read the integer and check it with `serialize_int`.
    Int,
    Null,
    Float,
    Bool,
    Datetime,
    Date,
    Time,
    Uuid,
    /// Write the dict as `dict_plan` says.
    Dict,
    /// Write each element of the list, which is not empty, with this
    /// context and its own type.
    List(SerializePyObject),
    /// An empty list.
    EmptyList,
    /// Write each element of the tuple, with this context.
    Tuple(SerializePyObject),
    /// Look for the dataclass instance's `__dict__`, then follow
    /// `dataclass_plan`.
    Dataclass,
    /// Write the enum member's `value` with this context.
    Enum(SerializePyObject),
    /// Read the numpy array; on failure follow `array_fallback`.
    Array,
    /// Hand the object to the default function, as `DefaultSerializer` says.
    Default,
}

/// The context of an object inside a container: one level deeper.
pub open spec fn spec_child(s: SerializePyObject, obtype: ObType, opts: Opt) -> SerializePyObject {
    SerializePyObject {
        obtype,
        opts,
        default_calls: s.default_calls,
        recursion: (s.recursion + 1) as u8,
        has_default: s.has_default,
    }
}

/// What to do with an object: the containers that count toward the
/// recursion limit (dicts, lists, dataclasses) fail at it.
pub open spec fn spec_plan(s: SerializePyObject, len: usize) -> Result<Plan, SerializeError> {
    match s.obtype {
        ObType::Str => Ok(Plan::Str { subclass: false }),
        ObType::StrSubclass => Ok(Plan::Str { subclass: true }),
        ObType::Int => Ok(Plan::Int),
        ObType::Null => Ok(Plan::Null),
        ObType::Float => Ok(Plan::Float),
        ObType::Bool => Ok(Plan::Bool),
        ObType::Datetime => Ok(Plan::Datetime),
        ObType::Date => Ok(Plan::Date),
        ObType::Time => Ok(Plan::Time),
        ObType::Uuid => Ok(Plan::Uuid),
        ObType::Dict => if s.recursion == RECURSION_LIMIT { Err(SerializeError::RecursionLimit) } else { Ok(Plan::Dict) },
        ObType::List => if s.recursion == RECURSION_LIMIT {
            Err(SerializeError::RecursionLimit)
        } else if len == 0 {
            Ok(Plan::EmptyList)
        } else {
            Ok(Plan::List(spec_child(s, ObType::Str, s.opts)))
        },
        ObType::Tuple => Ok(Plan::Tuple(spec_child(s, ObType::Unknown, s.opts))),
        ObType::Dataclass => if s.recursion == RECURSION_LIMIT {
            Err(SerializeError::RecursionLimit)
        } else {
            Ok(Plan::Dataclass)
        },
        ObType::Enum => Ok(Plan::Enum(SerializePyObject { obtype: ObType::Unknown, ..s })),
        ObType::Array => Ok(Plan::Array),
        ObType::Unknown => Ok(Plan::Default),
    }
}

/// Serializing never goes deeper than the recursion limit: a list, tuple
/// or dict hands the objects it contains a context one level deeper, and
/// is only written below the limit; at the limit a list, dict or dataclass
/// is refused.
pub proof fn lemma_depth_bounded(s: SerializePyObject, len: usize)
    requires
        s.obtype == ObType::Tuple ==> s.recursion < RECURSION_LIMIT,
    ensures
        spec_plan(s, len) matches Ok(Plan::List(c)) ==> c.recursion == s.recursion + 1 <= RECURSION_LIMIT,
        spec_plan(s, len) matches Ok(Plan::Tuple(c)) ==> c.recursion == s.recursion + 1 <= RECURSION_LIMIT,
        spec_plan(s, len) matches Ok(Plan::Enum(c)) ==> c.recursion == s.recursion,
        spec_plan(s, len) matches Ok(Plan::Dict) ==> s.recursion < RECURSION_LIMIT && match spec_dict_plan(s, len) {
            DictPlan::Empty => true,
            DictPlan::Plain(c) | DictPlan::NonStrKeys(c) | DictPlan::SortedKeys(c) => c.recursion == s.recursion + 1,
        },
        spec_plan(s, len) matches Ok(Plan::Dataclass) ==> s.recursion < RECURSION_LIMIT,
        (s.obtype == ObType::List || s.obtype == ObType::Dict || s.obtype == ObType::Dataclass) && s.recursion
            == RECURSION_LIMIT ==> spec_plan(s, len) == Err::<Plan, SerializeError>(SerializeError::RecursionLimit),
{
}

impl SerializePyObject {
    /// An object of the given type.
    pub fn new(f: TypeFacts, opts: Opt, default_calls: u8, recursion: u8, has_default: bool) -> (s: Self)
        ensures
            s == (SerializePyObject { obtype: spec_obtype(f, opts), opts, default_calls, recursion, has_default }),
    {
        SerializePyObject { obtype: pyobject_to_obtype(f, opts), opts, default_calls, recursion, has_default }
    }

    /// An object whose type is already known.
    pub fn with_obtype(obtype: ObType, opts: Opt, default_calls: u8, recursion: u8, has_default: bool) -> (s: Self)
        ensures
            s == (SerializePyObject { obtype, opts, default_calls, recursion, has_default }),
    {
        SerializePyObject { obtype, opts, default_calls, recursion, has_default }
    }

    /// The same context for an object inside this container, of a type to
    /// be found out (`Unknown` stands for "not known yet").
    fn child(&self, obtype: ObType, opts: Opt) -> (c: Self)
        requires
            self.recursion < RECURSION_LIMIT,
        ensures
            c == spec_child(*self, obtype, opts),
    {
        SerializePyObject {
            obtype,
            opts,
            default_calls: self.default_calls,
            recursion: self.recursion + 1,
            has_default: self.has_default,
        }
    }

    /// What to do with the object; `len` is the length of a list (of no
    /// account for other types).
    pub fn serialize(&self, len: usize) -> (r: Result<Plan, SerializeError>)
        requires
            self.obtype == ObType::Tuple ==> self.recursion < RECURSION_LIMIT,
        ensures
            r == spec_plan(*self, len),
    {
        match self.obtype {
            ObType::Str => Ok(Plan::Str { subclass: false }),
            ObType::StrSubclass => Ok(Plan::Str { subclass: true }),
            ObType::Int => Ok(Plan::Int),
            ObType::Null => Ok(Plan::Null),
            ObType::Float => Ok(Plan::Float),
            ObType::Bool => Ok(Plan::Bool),
            ObType::Datetime => Ok(Plan::Datetime),
            ObType::Date => Ok(Plan::Date),
            ObType::Time => Ok(Plan::Time),
            ObType::Uuid => Ok(Plan::Uuid),
            ObType::Dict => {
                if self.recursion == RECURSION_LIMIT {
                    Err(SerializeError::RecursionLimit)
                } else {
                    Ok(Plan::Dict)
                }
            },
            ObType::List => {
                if self.recursion == RECURSION_LIMIT {
                    Err(SerializeError::RecursionLimit)
                } else if len == 0 {
                    Ok(Plan::EmptyList)
                } else {
                    Ok(Plan::List(self.child(ObType::Str, self.opts)))
                }
            },
            ObType::Tuple => Ok(Plan::Tuple(self.child(ObType::Unknown, self.opts))),
            ObType::Dataclass => {
                if self.recursion == RECURSION_LIMIT {
                    Err(SerializeError::RecursionLimit)
                } else {
                    Ok(Plan::Dataclass)
                }
            },
            ObType::Enum => Ok(
                Plan::Enum(
                    SerializePyObject {
                        obtype: ObType::Unknown,
                        opts: self.opts,
                        default_calls: self.default_calls,
                        recursion: self.recursion,
                        has_default: self.has_default,
                    },
                ),
            ),
            ObType::Array => Ok(Plan::Array),
            ObType::Unknown => Ok(Plan::Default),
        }
    }

    /// How an integer is written, given its value read as a 64-bit signed
    /// integer (`overflowed`: it did not fit). An integer beyond 64 bits is
    /// written as its exact digits when big integers are asked for; strict
    /// integers are checked against the 53-bit range, which such an integer
    /// is outside of.
    pub fn serialize_int(&self, val: i64, overflowed: bool) -> (r: Result<IntText, SerializeError>)
        ensures
            overflowed && self.opts & BIG_INTEGER == 0 ==> r matches Err(SerializeError::Integer64Bits),
            overflowed && self.opts & BIG_INTEGER != 0 && self.opts & STRICT_INTEGER != 0
                ==> r matches Err(SerializeError::Integer53Bits),
            overflowed && self.opts & BIG_INTEGER != 0 && self.opts & STRICT_INTEGER == 0 ==> r == Ok::<
                IntText,
                SerializeError,
            >(IntText::Digits),
            !overflowed && self.opts & STRICT_INTEGER != 0 && (val > STRICT_INT_MAX || val < STRICT_INT_MIN)
                ==> r matches Err(SerializeError::Integer53Bits),
            !overflowed && !(self.opts & STRICT_INTEGER != 0 && (val > STRICT_INT_MAX || val < STRICT_INT_MIN))
                ==> r == Ok::<IntText, SerializeError>(IntText::Value(val)),
    {
        if overflowed {
            if self.opts & BIG_INTEGER == 0 {
                Err(SerializeError::Integer64Bits)
            } else if self.opts & STRICT_INTEGER != 0 {
                Err(SerializeError::Integer53Bits)
            } else {
                Ok(IntText::Digits)
            }
        } else if self.opts & STRICT_INTEGER != 0 && (val > STRICT_INT_MAX || val < STRICT_INT_MIN) {
            Err(SerializeError::Integer53Bits)
        } else {
            Ok(IntText::Value(val))
        }
    }

    /// The exact digits of an integer beyond 64 bits, from the decimal text
    /// of the integer: written as they are when they are the text of an
    /// integer, which reads back as the same integer.
    pub fn integer_digits<'a>(&self, text: &'a [u8]) -> (r: Result<&'a [u8], SerializeError>)
        ensures
            integer_text(text@) ==> r == Ok::<&[u8], SerializeError>(text),
            !integer_text(text@) ==> r matches Err(SerializeError::Integer64Bits),
    {
        if is_integer_text(text, 0, text.len()) {
            proof {
                assert(text@.subrange(0, text@.len() as int) =~= text@);
            }
            Ok(text)
        } else {
            proof {
                assert(text@.subrange(0, text@.len() as int) =~= text@);
            }
            Err(SerializeError::Integer64Bits)
        }
    }

    /// The text of a `str`, when it can be encoded as UTF-8.
    pub fn serialize_str<'a>(&self, utf8: Option<&'a [u8]>) -> (r: Result<&'a [u8], SerializeError>)
        ensures
            match utf8 {
                Some(b) => r == Ok::<&[u8], SerializeError>(b),
                None => r matches Err(SerializeError::InvalidStr),
            },
    {
        match utf8 {
            Some(b) => Ok(b),
            None => Err(SerializeError::InvalidStr),
        }
    }

    /// The context of the next element of a list: its type is found again
    /// only when the element's type differs from the one before.
    pub fn list_element(&self, prev: SerializePyObject, same_type: bool, f: TypeFacts) -> (c: SerializePyObject)
        ensures
            c == (SerializePyObject {
                obtype: if same_type { prev.obtype } else { spec_obtype(f, self.opts) },
                ..prev
            }),
    {
        let obtype = if same_type {
            prev.obtype
        } else {
            pyobject_to_obtype(f, self.opts)
        };
        SerializePyObject { obtype, ..prev }
    }

    /// How a dict of `len` items is written: empty, with its `str` keys as
    /// they come, with keys of other types turned into text, or sorted.
    pub fn dict_plan(&self, len: usize) -> (p: DictPlan)
        requires
            self.recursion < RECURSION_LIMIT,
        ensures
            p == spec_dict_plan(*self, len),
    {
        if len == 0 {
            DictPlan::Empty
        } else if self.opts & SORT_OR_NON_STR_KEYS == 0 || self.opts & DATACLASS_DICT_PATH != 0 {
            DictPlan::Plain(self.child(ObType::Unknown, self.opts & !DATACLASS_DICT_PATH))
        } else if self.opts & NON_STR_KEYS != 0 {
            DictPlan::NonStrKeys(self.child(ObType::Unknown, self.opts))
        } else {
            DictPlan::SortedKeys(self.child(ObType::Unknown, self.opts))
        }
    }

    /// A dataclass instance: its `__dict__`, when it has one, is written as
    /// a dict at the same depth with its keys as they come; otherwise its
    /// fields are written one by one, a level deeper.
    pub fn dataclass_plan(&self, has_dict: bool) -> (c: SerializePyObject)
        requires
            self.recursion < RECURSION_LIMIT,
        ensures
            has_dict ==> c == (SerializePyObject { obtype: ObType::Dict, opts: self.opts | DATACLASS_DICT_PATH, ..*self }),
            !has_dict ==> c == spec_child(*self, ObType::Unknown, self.opts),
    {
        if has_dict {
            SerializePyObject {
                obtype: ObType::Dict,
                opts: self.opts | DATACLASS_DICT_PATH,
                default_calls: self.default_calls,
                recursion: self.recursion,
                has_default: self.has_default,
            }
        } else {
            self.child(ObType::Unknown, self.opts)
        }
    }

    /// A numpy array that could not be read: a malformed one is an error;
    /// one that is not contiguous or holds an unsupported type goes to the
    /// default function.
    pub fn array_fallback(&self, err: PyArrayError) -> (r: Result<(), SerializeError>)
        ensures
            err == PyArrayError::Malformed ==> r matches Err(SerializeError::NumpyMalformed),
            err != PyArrayError::Malformed ==> r is Ok,
    {
        match err {
            PyArrayError::Malformed => Err(SerializeError::NumpyMalformed),
            _ => Ok(()),
        }
    }
}

/// Why a numpy array cannot be read.
#[derive(Clone, Copy, Debug, PartialEq, Eq, Structural)]
pub enum PyArrayError {
    Malformed,
    NotContiguous,
    UnsupportedDataType,
}

/// How a dict is written, with the context of its values.
#[derive(Clone, Copy, Debug, PartialEq, Eq, Structural)]
pub enum DictPlan {
    Empty,
    Plain(SerializePyObject),
    NonStrKeys(SerializePyObject),
    SortedKeys(SerializePyObject),
}

pub open spec fn spec_dict_plan(s: SerializePyObject, len: usize) -> DictPlan {
    if len == 0 {
        DictPlan::Empty
    } else if s.opts & SORT_OR_NON_STR_KEYS == 0 || s.opts & DATACLASS_DICT_PATH != 0 {
        DictPlan::Plain(spec_child(s, ObType::Unknown, s.opts & !DATACLASS_DICT_PATH))
    } else if s.opts & NON_STR_KEYS != 0 {
        DictPlan::NonStrKeys(spec_child(s, ObType::Unknown, s.opts))
    } else {
        DictPlan::SortedKeys(spec_child(s, ObType::Unknown, s.opts))
    }
}

/// A `str` key of a dict written as it comes: it must be an exact `str`
/// that can be encoded.
pub fn str_key<'a>(is_str: bool, utf8: Option<&'a [u8]>) -> (r: Result<&'a [u8], SerializeError>)
    ensures
        !is_str ==> r matches Err(SerializeError::KeyMustBeStr),
        is_str && utf8 is None ==> r matches Err(SerializeError::InvalidStr),
        is_str && utf8 is Some ==> r == Ok::<&[u8], SerializeError>(utf8->0),
{
    if !is_str {
        return Err(SerializeError::KeyMustBeStr);
    }
    match utf8 {
        Some(b) => Ok(b),
        None => Err(SerializeError::InvalidStr),
    }
}

/// What calling the default function gave back.
#[derive(Clone, Copy, Debug, PartialEq, Eq, Structural)]
pub enum DefaultOutcome {
    /// No object: the call failed.
    Null,
    /// An object, but with an exception left set.
    Raised,
    /// An object, and no exception.
    Object,
}

/// An object that only the default function can turn into something
/// serializable.
#[derive(Clone, Copy, Debug, PartialEq, Eq, Structural)]
pub struct DefaultSerializer {
    pub opts: Opt,
    pub default_calls: u8,
    pub recursion: u8,
    pub has_default: bool,
}

impl DefaultSerializer {
    pub fn new(opts: Opt, default_calls: u8, recursion: u8, has_default: bool) -> (d: Self)
        ensures
            d == (DefaultSerializer { opts, default_calls, recursion, has_default }),
    {
        DefaultSerializer { opts, default_calls, recursion, has_default }
    }

    /// Whether the default function may be called: there must be one, and
    /// the default calls that led here must be under the limit. `name`
    /// names the object's type for the error.
    pub fn serialize(&self, name: String) -> (r: Result<(), SerializeError>)
        ensures
            !self.has_default ==> (r matches Err(SerializeError::UnsupportedType(n)) && n@ == name@),
            self.has_default && self.default_calls == RECURSION_LIMIT ==> r matches Err(
                SerializeError::DefaultRecursionLimit,
            ),
            self.has_default && self.default_calls != RECURSION_LIMIT ==> r is Ok,
    {
        if self.has_default {
            if self.default_calls == RECURSION_LIMIT {
                Err(SerializeError::DefaultRecursionLimit)
            } else {
                Ok(())
            }
        } else {
            Err(SerializeError::UnsupportedType(name))
        }
    }

    /// After the default function was called: what it returned is written
    /// at the same depth, one default call further; nothing is an error.
    pub fn after_call(&self, outcome: DefaultOutcome, name: String) -> (r: Result<SerializePyObject, SerializeError>)
        requires
            self.default_calls < RECURSION_LIMIT,
        ensures
            outcome == DefaultOutcome::Null ==> (r matches Err(SerializeError::UnsupportedType(n)) && n@ == name@),
            outcome == DefaultOutcome::Raised ==> (r matches Err(SerializeError::DefaultRaised(n)) && n@ == name@),
            outcome == DefaultOutcome::Object ==> r == Ok::<SerializePyObject, SerializeError>(
                SerializePyObject {
                    obtype: ObType::Unknown,
                    opts: self.opts,
                    default_calls: (self.default_calls + 1) as u8,
                    recursion: self.recursion,
                    has_default: self.has_default,
                },
            ),
    {
        match outcome {
            DefaultOutcome::Null => Err(SerializeError::UnsupportedType(name)),
            DefaultOutcome::Raised => Err(SerializeError::DefaultRaised(name)),
            DefaultOutcome::Object => Ok(
                SerializePyObject {
                    obtype: ObType::Unknown,
                    opts: self.opts,
                    default_calls: self.default_calls + 1,
                    recursion: self.recursion,
                    has_default: self.has_default,
                },
            ),
        }
    }
}

} // verus!
