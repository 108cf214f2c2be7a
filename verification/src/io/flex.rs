//! A free position: a batch, a place within it, and a direction of view.

use crate::io::cube::{Float32, FloatPos, IntPos};
use vstd::prelude::*;

verus! {

/// Where something stands that is bound to no cube, and where it looks.
#[derive(Debug, Clone, Copy, PartialEq, Eq, Structural)]
pub struct FlexPos {
    pub batch: IntPos,
    pub local: FloatPos,
    pub yaw: Float32,
    pub pitch: Float32,
}

} // verus!
