//! The projector: a pinhole camera that looks along the depth axis and maps
//! a point in space to a cell of the canvas.

use vstd::prelude::*;
use crate::config::{CAMERA_DISTANCE, width, height, focal_length, camera_distance};
use crate::fixed::{one, round_ratio, saturate, div_round, saturate_i32};

verus! {

/// Twice the distance of a point at depth `z` from the camera, in
/// millionths of a fixed-point step: the common denominator of both
/// screen coordinates.
#[verifier::inline]
pub open spec fn depth_scale(z: int) -> int {
    2 * (one() * (z + camera_distance()))
}

/// The column on which a point with horizontal coordinate `x` and depth `z`
/// appears: `x * focal_length / (z + camera_distance) + width / 2`, rounded,
/// all in real numbers.
#[verifier::inline]
pub open spec fn screen_x(x: int, z: int) -> int {
    saturate(
        round_ratio(
            2 * (focal_length() * x) + width() * (one() * (z + camera_distance())),
            depth_scale(z),
        ),
    )
}

/// The row on which a point with vertical coordinate `y` and depth `z`
/// appears: `y * focal_length / (z + camera_distance) * 0.5 + height / 2`,
/// rounded, all in real numbers. The factor 0.5 makes up for cells that are
/// twice as high as they are wide.
#[verifier::inline]
pub open spec fn screen_y(y: int, z: int) -> int {
    saturate(
        round_ratio(
            focal_length() * y + height() * (one() * (z + camera_distance())),
            depth_scale(z),
        ),
    )
}

/// Rounding keeps the order of two fractions with the same positive
/// denominator.
pub proof fn lemma_round_ratio_monotone(n1: int, n2: int, d: int)
    requires
        n1 <= n2,
        d > 0,
    ensures
        round_ratio(n1, d) <= round_ratio(n2, d),
{
    assert(round_ratio(n1, d) <= round_ratio(n2, d)) by (nonlinear_arith)
        requires
            n1 <= n2,
            d > 0,
    ;
}

/// In front of the camera, a point further to the right never appears
/// further to the left.
pub proof fn lemma_screen_x_monotone(x1: int, x2: int, z: int)
    requires
        x1 <= x2,
        z + camera_distance() > 0,
    ensures
        screen_x(x1, z) <= screen_x(x2, z),
{
    let d = depth_scale(z);
    let c = width() * (one() * (z + camera_distance()));
    lemma_round_ratio_monotone(2 * (focal_length() * x1) + c, 2 * (focal_length() * x2) + c, d);
}

/// In front of the camera, a point further down never appears further up.
pub proof fn lemma_screen_y_monotone(y1: int, y2: int, z: int)
    requires
        y1 <= y2,
        z + camera_distance() > 0,
    ensures
        screen_y(y1, z) <= screen_y(y2, z),
{
    let d = depth_scale(z);
    let c = height() * (one() * (z + camera_distance()));
    lemma_round_ratio_monotone(focal_length() * y1 + c, focal_length() * y2 + c, d);
}

/// A point on the axis of the camera appears in the middle of the canvas.
pub proof fn lemma_axis_is_centre(z: int)
    requires
        z + camera_distance() != 0,
    ensures
        screen_x(0, z) == width() / 2,
        screen_y(0, z) == height() / 2,
{
    let t = z + camera_distance();
    if t > 0 {
        assert((2 * (160_000_000 * t) + 2_000_000 * t) / (2 * (2_000_000 * t)) == 80)
            by (nonlinear_arith)
            requires
                t > 0,
        ;
        assert((2 * (80_000_000 * t) + 2_000_000 * t) / (2 * (2_000_000 * t)) == 40)
            by (nonlinear_arith)
            requires
                t > 0,
        ;
    } else {
        let u = -t;
        assert((2 * (160_000_000 * u) + 2_000_000 * u) / (2 * (2_000_000 * u)) == 80)
            by (nonlinear_arith)
            requires
                u > 0,
        ;
        assert((2 * (80_000_000 * u) + 2_000_000 * u) / (2 * (2_000_000 * u)) == 40)
            by (nonlinear_arith)
            requires
                u > 0,
        ;
    }
}

/// Projects the point `(x, y, z)` onto the canvas and returns its column
/// and row. Nothing limits them to the canvas: the rasteriser wraps them.
pub fn project_vertex(x: i32, y: i32, z: i32) -> (p: (i32, i32))
    requires
        z + camera_distance() != 0,
    ensures
        p.0 == screen_x(x as int, z as int),
        p.1 == screen_y(y as int, z as int),
{
    let t: i128 = z as i128 + CAMERA_DISTANCE as i128;
    let den: i128 = 2_000_000 * t;
    let mid_x: i128 = 160_000_000 * t;
    let mid_y: i128 = 80_000_000 * t;
    let nx: i128 = 200_000_000 * (x as i128) + mid_x;
    let ny: i128 = 100_000_000 * (y as i128) + mid_y;
    (saturate_i32(div_round(nx, den)), saturate_i32(div_round(ny, den)))
}

} // verus!
