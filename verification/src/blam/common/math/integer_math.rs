//! Points of 32-bit integers.

use vstd::prelude::*;

verus! {

/// Three 32-bit integers: a quantized point, or a bit count per axis.
#[derive(Default, PartialEq, Eq, Debug, Clone, Copy)]
pub struct int32_point3d {
    pub x: i32,
    pub y: i32,
    pub z: i32,
}

} // verus!
