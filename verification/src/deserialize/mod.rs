//! Reading documents handed over by Python: the input checks, the errors
//! and their positions, and the JSON reader run over the whole input.

pub mod error;
pub mod input;
pub mod deserializer;
pub mod number;
