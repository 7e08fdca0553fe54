//! Pixel side of the viewport mapping.
//!
//! A pixel `(x, y)` of a raster `w` pixels wide lands on the complex point
//! `((x - w/2) / zoom - px, (y - w/2) / zoom - py)`: the width serves both axes.
//! Both numerators are halves of integers, so the engine hands the point
//! builder the exact integers `2x - w` and `2y - w`; the point is then
//! `(dx / (2 zoom) - px, dy / (2 zoom) - py)`, the only step that needs real
//! arithmetic.

use vstd::prelude::*;

verus! {

/// Largest raster dimension the engine accepts, so that `2x - w` fits an `i64`.
pub const MAX_SIDE: usize = 0x3fff_ffff;

/// Twice the signed distance from the raster's reference centre `width / 2` to
/// the coordinate `x`.
pub open spec fn doubled_offset(x: int, width: int) -> int {
    2 * x - width
}

/// The coordinate, up to `MAX_SIDE`, whose doubled offset is `d`, when there
/// is one.
pub open spec fn coordinate_of(d: int, width: int) -> Option<int> {
    if (d + width) % 2 == 0 && 0 <= d + width <= 2 * MAX_SIDE {
        Some((d + width) / 2)
    } else {
        None
    }
}

/// Doubled offset of coordinate `x` in a raster `width` pixels wide.
pub fn pixel_offset(x: usize, width: usize) -> (r: i64)
    requires
        x <= MAX_SIDE,
        width <= MAX_SIDE,
    ensures
        r == doubled_offset(x as int, width as int),
{
    2 * (x as i64) - width as i64
}

/// Coordinate of the pixel whose doubled offset is `d`, or `None` when no
/// pixel coordinate has that offset.
pub fn pixel_from_offset(d: i64, width: usize) -> (r: Option<usize>)
    requires
        width <= MAX_SIDE,
    ensures
        r matches Some(x) ==> coordinate_of(d as int, width as int) == Some(x as int),
        r is None ==> coordinate_of(d as int, width as int) is None,
{
    let sum: i128 = d as i128 + width as i128;
    if 0 <= sum && sum <= 2 * (MAX_SIDE as i128) && sum % 2 == 0 {
        Some((sum / 2) as usize)
    } else {
        None
    }
}

/// The pixel-to-offset step is invertible: mapping a coordinate to its
/// doubled offset and back recovers the coordinate exactly.
pub proof fn lemma_offset_round_trip(x: int, width: int)
    requires
        0 <= x <= MAX_SIDE,
        0 <= width,
    ensures
        coordinate_of(doubled_offset(x, width), width) == Some(x),
{
}

/// Distinct coordinates have distinct doubled offsets.
pub proof fn lemma_offset_injective(x1: int, x2: int, width: int)
    requires
        doubled_offset(x1, width) == doubled_offset(x2, width),
    ensures
        x1 == x2,
{
}

} // verus!
