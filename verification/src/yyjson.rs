use vstd::prelude::*;

verus! {

// The tags of yyjson's values: the low byte tells the type, the rest of the
// tag the length of a string or container.

pub const YYJSON_TAG_BIT: u8 = 8;
pub const TAG_ARRAY: u8 = 6;
pub const TAG_DOUBLE: u8 = 20;
pub const TAG_FALSE: u8 = 3;
pub const TAG_INT64: u8 = 12;
pub const TAG_NULL: u8 = 2;
pub const TAG_OBJECT: u8 = 7;
pub const TAG_STRING: u8 = 5;
pub const TAG_TRUE: u8 = 11;
pub const TAG_UINT64: u8 = 4;

/// The type of a value.
#[derive(Clone, Copy, Debug, PartialEq, Eq, Structural)]
pub enum ElementType {
    String,
    Uint64,
    Int64,
    Double,
    Null,
    True,
    False,
    Array,
    Object,
}

/// The type a tag's low byte names.
pub open spec fn spec_element_type(tag: u8) -> Option<ElementType> {
    if tag == TAG_STRING {
        Some(ElementType::String)
    } else if tag == TAG_UINT64 {
        Some(ElementType::Uint64)
    } else if tag == TAG_INT64 {
        Some(ElementType::Int64)
    } else if tag == TAG_DOUBLE {
        Some(ElementType::Double)
    } else if tag == TAG_NULL {
        Some(ElementType::Null)
    } else if tag == TAG_TRUE {
        Some(ElementType::True)
    } else if tag == TAG_FALSE {
        Some(ElementType::False)
    } else if tag == TAG_ARRAY {
        Some(ElementType::Array)
    } else if tag == TAG_OBJECT {
        Some(ElementType::Object)
    } else {
        None
    }
}

impl ElementType {
    /// The type of a value by its tag's low byte, which must name one.
    pub fn from_tag(tag: u8) -> (t: Self)
        requires
            spec_element_type(tag) is Some,
        ensures
            spec_element_type(tag) == Some(t),
    {
        if tag == TAG_STRING {
            ElementType::String
        } else if tag == TAG_UINT64 {
            ElementType::Uint64
        } else if tag == TAG_INT64 {
            ElementType::Int64
        } else if tag == TAG_DOUBLE {
            ElementType::Double
        } else if tag == TAG_NULL {
            ElementType::Null
        } else if tag == TAG_TRUE {
            ElementType::True
        } else if tag == TAG_FALSE {
            ElementType::False
        } else if tag == TAG_ARRAY {
            ElementType::Array
        } else {
            ElementType::Object
        }
    }
}

/// The length held in a tag: the bits above its low byte.
pub fn unsafe_yyjson_get_len(tag: u64) -> (len: u64)
    ensures
        len == tag / 256,
{
    let len = tag >> 8u64;
    assert(tag >> 8u64 == tag / 256) by (bit_vector);
    len
}

/// Whether a tag's low byte marks a container (array or object).
pub fn unsafe_yyjson_is_ctn(tag: u8) -> (r: bool)
    ensures
        r == (tag % 8 >= 6),
{
    let r = tag & 6u8 == 6u8;
    assert((tag & 6u8 == 6u8) == (tag % 8 >= 6)) by (bit_vector);
    r
}

/// The most memory yyjson may use to read a document of `len` bytes.
pub fn yyjson_read_max_memory_usage(len: usize) -> (n: usize)
    requires
        12 * len + 256 <= usize::MAX,
    ensures
        n == 12 * len + 256,
{
    (12 * len) + 256
}

} // verus!
