//! The one physical rule the geometric core can state exactly: whether
//! two spheres touch.  The force and velocity formulas live with the
//! surrounding program, whose gravitational constant has no place in
//! this fixed-point scale.

use vstd::prelude::*;
use crate::math::{Vec3, bounded3, mag3_spec};

verus! {

/// Whether two spheres overlap: the distance between the centers is at
/// most the sum of the radii.
pub fn is_collision(pos1: &Vec3, radius1: i64, pos2: &Vec3, radius2: i64) -> (r: bool)
    requires
        bounded3(*pos1),
        bounded3(*pos2),
        -0x4000_0000_0000_0000 <= radius1 + radius2 <= 0x4000_0000_0000_0000,
    ensures
        r == (mag3_spec(
            Vec3 {
                x: (pos1.x - pos2.x) as i64,
                y: (pos1.y - pos2.y) as i64,
                z: (pos1.z - pos2.z) as i64,
            },
        ) <= radius1 + radius2),
{
    let distance = pos1.distance_to(pos2);
    distance <= radius1 + radius2
}

} // verus!
