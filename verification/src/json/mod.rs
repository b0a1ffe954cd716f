//! The JSON reader: input positions, syntax errors, strings, numbers, and
//! the deserializer that turns JSON text into a sequence of events.

pub mod error;
pub mod read;
pub mod number;
pub mod de;
pub mod value;
pub mod skip;
pub mod typed;


pub mod agree;
