//! The bit-level codec: big-endian scalars, bits and nibbles, geometry.

pub mod bits;
pub mod cube;
pub mod endian;
pub mod flex;
pub mod laws;
pub mod reader;
pub mod writer;
