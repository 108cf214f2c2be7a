//! A bit-addressable wire codec, the signals it carries, and the schema
//! compiler that derives state-gated operations from a protocol description.

pub mod client;
pub mod compiler;
pub mod io;
pub mod protocol;
pub mod util;
