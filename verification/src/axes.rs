//! The axes of the two worlds: the simulation's third axis points up, the replicated world's
//! second one does. Coordinates are bit patterns.

use crate::float_bits::{float_neg, law_patterns, negated};
use vstd::prelude::*;

verus! {

/// A point or a direction.
#[derive(Clone, Copy, Debug, PartialEq, Eq, Structural)]
pub struct Vec3Bits {
    pub x: u32,
    pub y: u32,
    pub z: u32,
}

/// A rotation.
#[derive(Clone, Copy, Debug, PartialEq, Eq, Structural)]
pub struct QuatBits {
    pub x: u32,
    pub y: u32,
    pub z: u32,
    pub w: u32,
}

/// The pattern of the number one.
pub const ONE: u32 = 0x3f80_0000;

/// The rotation that leaves everything where it is.
pub open spec fn identity() -> QuatBits {
    QuatBits { x: 0, y: 0, z: 0, w: ONE }
}

/// A point of the simulation as a point of the replicated world.
pub open spec fn to_bevy(p: Vec3Bits) -> Vec3Bits {
    Vec3Bits { x: p.x, y: p.z, z: negated(p.y) }
}

/// A point of the simulation as a point of the replicated world: up stays up, and the
/// simulation's second axis becomes the opposite of the third one.
pub fn sim_pos_to_bevy(p: Vec3Bits) -> (point: Vec3Bits)
    ensures
        point == to_bevy(p),
{
    Vec3Bits { x: p.x, y: p.z, z: float_neg(p.y) }
}

/// A predicted position, rotation and velocity.
#[derive(Clone, Copy, Debug, PartialEq, Eq, Structural)]
pub struct PredictedLocalTransform {
    pub pos: Vec3Bits,
    pub ori: QuatBits,
    pub vel: Vec3Bits,
}

/// The predicted transform of the local player, from its position and velocity in the
/// simulation; `ori` is its rotation in the replicated world, where one is known.
pub fn predicted_local_transform(pos: Vec3Bits, vel: Vec3Bits, ori: Option<QuatBits>) -> (predicted:
    PredictedLocalTransform)
    ensures
        predicted == (PredictedLocalTransform {
            pos: to_bevy(pos),
            ori: match ori {
                Some(ori) => ori,
                None => identity(),
            },
            vel: to_bevy(vel),
        }),
{
    PredictedLocalTransform {
        pos: sim_pos_to_bevy(pos),
        ori: match ori {
            Some(ori) => ori,
            None => QuatBits { x: 0, y: 0, z: 0, w: ONE },
        },
        vel: sim_pos_to_bevy(vel),
    }
}

/// Different points stay different.
pub proof fn law_axes_are_injective(a: Vec3Bits, b: Vec3Bits)
    requires
        to_bevy(a) == to_bevy(b),
    ensures
        a == b,
{
    crate::float_bits::law_negation(a.y);
    crate::float_bits::law_negation(b.y);
}

/// Whether a vector is another one seen along the axes of the clients: its second component up,
/// and its third against the simulation's second, which differs in the sign bit alone.
pub open spec fn turned(shown: Vec3Bits, v: Vec3Bits) -> bool {
    &&& shown.x == v.x
    &&& shown.y == v.z
    &&& v.y < 0x8000_0000 ==> shown.z == v.y + 0x8000_0000
    &&& v.y >= 0x8000_0000 ==> shown.z == v.y - 0x8000_0000
}

/// Every vector is turned from the axes of the simulation to those of the clients.
pub proof fn law_points_are_turned(v: Vec3Bits)
    ensures
        turned(to_bevy(v), v),
{
    law_patterns(v.y);
}

} // verus!
