//! Positions in the world of cubes.

use vstd::prelude::*;

verus! {

/// A binary32 number, held as its 32 bits.
pub type Float32 = u32;

/// A binary64 number, held as its 64 bits.
pub type Float64 = u64;

/// Three signed coordinates.
#[derive(Debug, Clone, Copy, PartialEq, Eq, Structural)]
pub struct IntPos {
    pub x: i32,
    pub y: i32,
    pub z: i32,
}

/// Three binary32 coordinates.
#[derive(Debug, Clone, Copy, PartialEq, Eq, Structural)]
pub struct FloatPos {
    pub x: Float32,
    pub y: Float32,
    pub z: Float32,
}

/// A cube: the batch it lies in, and its place within the batch, each
/// coordinate a nibble.
#[derive(Debug, Clone, Copy, PartialEq, Eq, Structural)]
pub struct CubePos {
    pub batch: IntPos,
    pub local_x: u8,
    pub local_y: u8,
    pub local_z: u8,
}

impl CubePos {
    /// Whether each local coordinate fits in the nibble that carries it.
    pub open spec fn in_range(&self) -> bool {
        self.local_x < 16 && self.local_y < 16 && self.local_z < 16
    }
}

/// A point on one face of a cube.
#[derive(Debug, Clone, Copy, PartialEq, Eq, Structural)]
pub struct CubePrecisePos {
    pub cube: CubePos,
    pub face: u8,
    pub precise_x: Float32,
    pub precise_y: Float32,
}

impl CubePrecisePos {
    /// Whether the cube's coordinates and the face each fit in a nibble.
    pub open spec fn in_range(&self) -> bool {
        self.cube.in_range() && self.face < 16
    }
}

} // verus!
