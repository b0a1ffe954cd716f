use vstd::prelude::*;
use vstd::string::StringExecFns;

verus! {

/// Why a Python object could not be serialized.
#[derive(Debug)]
pub enum SerializeError {
    DatetimeLibraryUnsupported,
    DefaultRecursionLimit,
    Integer53Bits,
    Integer64Bits,
    InvalidStr,
    KeyMustBeStr,
    RecursionLimit,
    TimeHasTzinfo,
    DictIntegerKey64Bit,
    DictKeyInvalidType,
    /// A dict key of a type that non-str keys cannot be written from.
    DictKeyUnsupportedType,
    NumpyMalformed,
    NumpyNotCContiguous,
    NumpyUnsupportedDatatype,
    /// An object of a type that cannot be serialized, with the name of
    /// its type.
    UnsupportedType(String),
    /// The default function raised an exception on an object of this type.
    DefaultRaised(String),
}

/// The message shown for a serialization error.
pub open spec fn spec_serialize_message(e: SerializeError) -> Seq<char> {
    match e {
        SerializeError::DatetimeLibraryUnsupported =>
            "datetime's timezone library is not supported: use datetime.timezone.utc, pendulum, pytz, or dateutil"@,
        SerializeError::DefaultRecursionLimit => "default serializer exceeds recursion limit"@,
        SerializeError::Integer53Bits => "Integer exceeds 53-bit range"@,
        SerializeError::Integer64Bits => "Integer exceeds 64-bit range"@,
        SerializeError::InvalidStr => "str is not valid UTF-8: surrogates not allowed"@,
        SerializeError::KeyMustBeStr => "Dict key must be str"@,
        SerializeError::RecursionLimit => "Recursion limit reached"@,
        SerializeError::TimeHasTzinfo => "datetime.time must not have tzinfo set"@,
        SerializeError::DictIntegerKey64Bit => "Dict integer key must be within 64-bit range"@,
        SerializeError::DictKeyInvalidType => "Dict key must a type serializable with OPT_NON_STR_KEYS"@,
        SerializeError::DictKeyUnsupportedType => "Dict key must a type serializable with NON_STR_KEYS"@,
        SerializeError::NumpyMalformed => "numpy array is malformed"@,
        SerializeError::NumpyNotCContiguous => "numpy array is not C contiguous; use ndarray.tolist() in default"@,
        SerializeError::NumpyUnsupportedDatatype => "unsupported datatype in numpy array"@,
        SerializeError::UnsupportedType(name) => "Type is not JSON serializable: "@ + name@,
        SerializeError::DefaultRaised(name) => "Type raised exception in default function: "@ + name@,
    }
}

impl SerializeError {
    /// The message shown for this error.
    pub fn message(&self) -> (m: String)
        ensures
            m@ == spec_serialize_message(*self),
    {
        match self {
            SerializeError::DatetimeLibraryUnsupported => String::from_str(
                "datetime's timezone library is not supported: use datetime.timezone.utc, pendulum, pytz, or dateutil",
            ),
            SerializeError::DefaultRecursionLimit => String::from_str("default serializer exceeds recursion limit"),
            SerializeError::Integer53Bits => String::from_str("Integer exceeds 53-bit range"),
            SerializeError::Integer64Bits => String::from_str("Integer exceeds 64-bit range"),
            SerializeError::InvalidStr => String::from_str("str is not valid UTF-8: surrogates not allowed"),
            SerializeError::KeyMustBeStr => String::from_str("Dict key must be str"),
            SerializeError::RecursionLimit => String::from_str("Recursion limit reached"),
            SerializeError::TimeHasTzinfo => String::from_str("datetime.time must not have tzinfo set"),
            SerializeError::DictIntegerKey64Bit => String::from_str("Dict integer key must be within 64-bit range"),
            SerializeError::DictKeyInvalidType => String::from_str(
                "Dict key must a type serializable with OPT_NON_STR_KEYS",
            ),
            SerializeError::DictKeyUnsupportedType => String::from_str(
                "Dict key must a type serializable with NON_STR_KEYS",
            ),
            SerializeError::NumpyMalformed => String::from_str("numpy array is malformed"),
            SerializeError::NumpyNotCContiguous => String::from_str(
                "numpy array is not C contiguous; use ndarray.tolist() in default",
            ),
            SerializeError::NumpyUnsupportedDatatype => String::from_str("unsupported datatype in numpy array"),
            SerializeError::UnsupportedType(name) => {
                let mut m = String::from_str("Type is not JSON serializable: ");
                m.append(name.as_str());
                m
            },
            SerializeError::DefaultRaised(name) => {
                let mut m = String::from_str("Type raised exception in default function: ");
                m.append(name.as_str());
                m
            },
        }
    }
}

} // verus!
