use vstd::prelude::*;

verus! {

/// Serialization and deserialization options, as a bit set.
pub type Opt = u32;

pub const INDENT_2: Opt = 1;
pub const NAIVE_UTC: Opt = 2;
pub const NON_STR_KEYS: Opt = 4;
pub const OMIT_MICROSECONDS: Opt = 8;
pub const SERIALIZE_NUMPY: Opt = 16;
pub const SORT_KEYS: Opt = 32;
pub const STRICT_INTEGER: Opt = 64;
pub const UTC_Z: Opt = 128;
pub const PASSTHROUGH_SUBCLASS: Opt = 256;
pub const PASSTHROUGH_DATETIME: Opt = 512;
pub const APPEND_NEWLINE: Opt = 1024;
pub const PASSTHROUGH_DATACLASS: Opt = 2048;
/// Integers beyond 64 bits are written and read exactly, as their digits.
pub const BIG_INTEGER: Opt = 4096;
/// The bare token `nan` is read as `null`.
pub const NAN_AS_NULL: Opt = 8192;

/// Deprecated options, kept as no-ops.
pub const SERIALIZE_DATACLASS: Opt = 0;
pub const SERIALIZE_UUID: Opt = 0;

pub const SORT_OR_NON_STR_KEYS: Opt = 36;

/// Every option except the three passthrough flags.
pub const NOT_PASSTHROUGH: Opt = 0xFFFF_F0FF;

/// The union of all valid options.
pub const MAX_OPT: i32 = 16383;

} // verus!
