//! Flat shading: how bright an edge is under the light, and the character
//! that stands for a brightness.

use vstd::prelude::*;
use crate::fixed::{ONE, one, clamp, round_ratio, div_round};
use crate::vector::{
    Point3, UNIT_SQUARED, normalize, dot_product, normalize_spec, dot_spec, norm_sq, unit, unit_squared,
    aligned, lemma_normalize_unit_length, lemma_normalize_aligned,
};

verus! {

/// The number of characters in the ramp.
pub const RAMP_LEN: usize = 12;

/// The place of the densest character in the ramp.
#[verifier::inline]
pub open spec fn ramp_top() -> int {
    11
}

/// The characters that stand for brightness, from the sparsest to the
/// densest.
pub open spec fn ramp() -> Seq<char> {
    seq![' ', '.', ',', ':', ';', '-', '=', '+', '*', '#', '%', '@']
}

/// The place in the ramp that stands for `intensity`: the intensity is
/// limited to the interval from 0 to `ONE`, spread over the ramp and
/// rounded.
pub open spec fn glyph_index_spec(intensity: int) -> int {
    round_ratio(clamp(intensity, 0, one()) * ramp_top(), one())
}

/// The character that stands for `intensity`.
pub open spec fn glyph_spec(intensity: int) -> char {
    ramp()[glyph_index_spec(intensity)]
}

/// Twice `UNIT_SQUARED` divided by `ONE`: what halves an inner product of
/// unit vectors and turns it into millionths in one division.
#[verifier::inline]
pub open spec fn intensity_divisor() -> int {
    2_000_000_000_000
}

/// The brightness of an edge that runs along `edge` under light from
/// `light`, in millionths: the inner product of the two directions, moved
/// from the interval between -1 and 1 to the interval between 0 and 1 and
/// rounded once.
pub open spec fn intensity_spec(edge: Point3, light: Point3) -> int {
    clamp(
        round_ratio(
            dot_spec(normalize_spec(edge), normalize_spec(light)) + unit_squared(),
            intensity_divisor(),
        ),
        0,
        one(),
    )
}

/// An intensity always has a place in the ramp, and the densest character
/// is the last of the ramp.
pub proof fn lemma_glyph_index_in_ramp(intensity: int)
    ensures
        0 <= glyph_index_spec(intensity) < RAMP_LEN,
        ramp().len() == RAMP_LEN,
        ramp_top() == RAMP_LEN - 1,
{
}

/// No light gives the sparsest character and full light the densest.
pub proof fn lemma_glyph_extremes()
    ensures
        glyph_index_spec(0) == 0,
        glyph_index_spec(ONE as int) == RAMP_LEN - 1,
        glyph_spec(0) == ' ',
        glyph_spec(ONE as int) == '@',
{
}

/// An intensity outside the interval from 0 to `ONE` gives the character of
/// the nearer end of the interval.
pub proof fn lemma_glyph_clamped(intensity: int)
    ensures
        intensity <= 0 ==> glyph_spec(intensity) == glyph_spec(0),
        intensity >= ONE ==> glyph_spec(intensity) == glyph_spec(ONE as int),
{
}

/// A brighter edge never gets a sparser character.
pub proof fn lemma_glyph_monotone(dim: int, bright: int)
    requires
        dim <= bright,
    ensures
        glyph_index_spec(dim) <= glyph_index_spec(bright),
{
}

/// Light that falls along an edge lights it fully: the inner product of
/// the two directions is one within eight billionths, the intensity is
/// exactly `ONE`, and the edge shows in the densest character.
pub proof fn lemma_aligned_light_is_brightest(edge: Point3, light: Point3, m: int, n: int)
    requires
        norm_sq(edge) != 0,
        aligned(edge, light, m, n),
    ensures
        normalize_spec(light) == normalize_spec(edge),
        (unit() - 4) * (unit() - 4) <= dot_spec(normalize_spec(edge), normalize_spec(light))
            <= unit_squared(),
        intensity_spec(edge, light) == ONE,
        glyph_spec(intensity_spec(edge, light)) == '@',
{
    lemma_normalize_aligned(edge, light, m, n);
    lemma_normalize_unit_length(edge);
    let u = normalize_spec(edge);
    assert(dot_spec(u, u) == norm_sq(u));
}

/// Returns the place in the ramp that stands for `intensity`.
pub fn glyph_index(intensity: i32) -> (index: usize)
    ensures
        index == glyph_index_spec(intensity as int),
        index < RAMP_LEN,
{
    let limited: i64 = if intensity < 0 {
        0
    } else if intensity > ONE {
        ONE as i64
    } else {
        intensity as i64
    };
    let index: i64 = (22 * limited + 1_000_000) / 2_000_000;
    index as usize
}

/// Returns the character at `index` of the ramp.
pub fn ramp_glyph(index: usize) -> (glyph: char)
    requires
        index < RAMP_LEN,
    ensures
        glyph == ramp()[index as int],
{
    let chars: [char; 12] = [' ', '.', ',', ':', ';', '-', '=', '+', '*', '#', '%', '@'];
    chars[index]
}

/// Returns the character that stands for `intensity`.
pub fn intensity_glyph(intensity: i32) -> (glyph: char)
    ensures
        glyph == glyph_spec(intensity as int),
{
    ramp_glyph(glyph_index(intensity))
}

/// Returns the brightness of an edge that runs along `edge` under light
/// from `light`.
pub fn edge_intensity(edge: Point3, light: Point3) -> (intensity: i32)
    ensures
        intensity == intensity_spec(edge, light),
        0 <= intensity <= ONE,
{
    let d: i128 = dot_product(normalize(edge), normalize(light));
    let half: i128 = div_round(d + UNIT_SQUARED as i128, 2_000_000_000_000);
    if half < 0 {
        0
    } else if half > ONE as i128 {
        ONE
    } else {
        half as i32
    }
}

} // verus!
