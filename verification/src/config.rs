//! The parameters of the scene: the canvas, the camera, the motion and the
//! light. Lengths and angles are fixed-point numbers.

use vstd::prelude::*;
use crate::vector::Point3;

verus! {

/// The number of columns of the canvas.
pub const WIDTH: usize = 160;

/// The number of rows of the canvas.
pub const HEIGHT: usize = 80;

/// The distance from the eye to the picture plane.
pub const FOCAL_LENGTH: i32 = 100_000_000;

/// The distance from the camera to the origin, along the depth axis.
pub const CAMERA_DISTANCE: i32 = 10_000_000;

/// The angle by which a solid with spin ratio 1.0 turns per frame.
pub const BASE_SPEED: i32 = 5_000;

/// The number of frames shown per second.
pub const TARGET_FPS: u64 = 60;

/// The angle by which the solids move along their orbit per frame.
pub const ORBIT_SPEED: i32 = 20_000;

/// The radius of the orbit along the horizontal axis.
pub const ORBIT_A: i32 = 6_000_000;

/// The radius of the orbit along the vertical axis.
pub const ORBIT_B: i32 = 3_000_000;

/// The radius of the orbit along the depth axis.
pub const ORBIT_C: i32 = 2_000_000;

/// The radius of the sphere in the middle.
pub const SPHERE_RADIUS: i32 = 2_000_000;

/// The number of circles of latitude on the sphere.
pub const SPHERE_LATS: usize = 10;

/// The number of meridians on the sphere.
pub const SPHERE_LONGS: usize = 20;

/// The value of `WIDTH`, written out for specifications.
#[verifier::inline]
pub open spec fn width() -> int {
    160
}

/// The value of `HEIGHT`, written out for specifications.
#[verifier::inline]
pub open spec fn height() -> int {
    80
}

/// The value of `FOCAL_LENGTH`, written out for specifications.
#[verifier::inline]
pub open spec fn focal_length() -> int {
    100_000_000
}

/// The value of `CAMERA_DISTANCE`, written out for specifications.
#[verifier::inline]
pub open spec fn camera_distance() -> int {
    10_000_000
}

/// The value of `ORBIT_A`, written out for specifications.
#[verifier::inline]
pub open spec fn orbit_a() -> int {
    6_000_000
}

/// The value of `ORBIT_B`, written out for specifications.
#[verifier::inline]
pub open spec fn orbit_b() -> int {
    3_000_000
}

/// The value of `ORBIT_C`, written out for specifications.
#[verifier::inline]
pub open spec fn orbit_c() -> int {
    2_000_000
}

/// The values written out for specifications are those of the constants.
pub proof fn lemma_written_out_values()
    ensures
        WIDTH == width(),
        HEIGHT == height(),
        FOCAL_LENGTH == focal_length(),
        CAMERA_DISTANCE == camera_distance(),
        ORBIT_A == orbit_a(),
        ORBIT_B == orbit_b(),
        ORBIT_C == orbit_c(),
{
}

/// The direction from which the light falls.
pub open spec fn light_spec() -> Point3 {
    Point3 { x: 1_000_000, y: 1_000_000, z: 1_000_000 }
}

/// Returns the direction from which the light falls.
pub fn light_direction() -> (light: Point3)
    ensures
        light == light_spec(),
{
    Point3 { x: 1_000_000, y: 1_000_000, z: 1_000_000 }
}

} // verus!
