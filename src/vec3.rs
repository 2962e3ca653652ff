use vstd::prelude::*;

use crate::reader::{le_u32, read_u32_at};

verus! {

/// Three 32-bit floats kept as their IEEE-754 bit patterns, in file order.
#[derive(Debug, Clone, Copy, PartialEq, Eq, Structural)]
pub struct Vec3Bits {
    pub x: u32,
    pub y: u32,
    pub z: u32,
}

/// The three little-endian words stored at `b[p..p + 12]`.
pub open spec fn vec3_at(b: Seq<u8>, p: int) -> Vec3Bits {
    Vec3Bits { x: le_u32(b, p) as u32, y: le_u32(b, p + 4) as u32, z: le_u32(b, p + 8) as u32 }
}

/// Reads the three words at `b[p..p + 12]`.
pub(crate) fn read_vec3_at(b: &[u8], p: usize) -> (r: Vec3Bits)
    requires
        p + 12 <= b@.len(),
    ensures
        r == vec3_at(b@, p as int),
{
    let _len = b.len();
    Vec3Bits { x: read_u32_at(b, p), y: read_u32_at(b, p + 4), z: read_u32_at(b, p + 8) }
}

} // verus!
