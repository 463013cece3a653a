//! Fixed-point coordinates and their projection onto the pixel grid.
//!
//! Normalised device coordinates and depths are integers that count in units of `1 / ONE`:
//! the value `ONE` stands for 1.0, `-ONE` for -1.0.

use crate::line::coords;
use vstd::prelude::*;

verus! {

/// The fixed-point representation of 1.0.
pub const ONE: i32 = 65536;

/// `n / (2 * ONE)` rounded to the nearest integer, a tie rounded away from zero.
pub open spec fn round_to_pixel(n: int) -> int {
    if n >= 0 {
        (n + ONE) / (2 * ONE)
    } else {
        -((ONE - n) / (2 * ONE))
    }
}

/// The nearest value that a pixel coordinate can hold.
pub open spec fn saturate(v: int) -> int {
    if v < i32::MIN {
        i32::MIN as int
    } else if v > i32::MAX {
        i32::MAX as int
    } else {
        v
    }
}

/// The pixel coordinate of the normalised coordinate `c` on an axis of `extent` pixels:
/// `c * extent / 2` in units of one, rounded, and held within the range of a coordinate.
pub open spec fn project(c: int, extent: int) -> int {
    saturate(round_to_pixel(c * extent))
}

/// The pixel of the normalised point `dot` in a viewport of the given shape.
pub open spec fn rasterize_dot_spec(dot: (int, int), shape: (int, int)) -> (int, int) {
    (project(dot.0, shape.0), project(dot.1, shape.1))
}

fn project_axis(c: i32, extent: i32) -> (p: i32)
    ensures
        p == project(c as int, extent as int),
{
    assert(-0x4000_0000_0000_0000 <= c * extent <= 0x4000_0000_0000_0000) by (nonlinear_arith)
        requires
            -0x8000_0000 <= c <= 0x7fff_ffff,
            -0x8000_0000 <= extent <= 0x7fff_ffff,
    ;
    let n: i64 = c as i64 * extent as i64;
    let q: i64 = if n >= 0 {
        (n + 65536) / 131072
    } else {
        -((65536 - n) / 131072)
    };
    if q < -2147483648 {
        i32::MIN
    } else if q > 2147483647 {
        i32::MAX
    } else {
        q as i32
    }
}

/// Projects a normalised point onto the pixel grid of a viewport: each coordinate is
/// multiplied by half the viewport's extent on its axis and rounded to the nearest pixel.
/// The centre of the viewport is pixel (0, 0).
pub fn rasterize_dot(dot: (i32, i32), shape: (i32, i32)) -> (p: (i32, i32))
    ensures
        coords(p) == rasterize_dot_spec(coords(dot), coords(shape)),
{
    (project_axis(dot.0, shape.0), project_axis(dot.1, shape.1))
}

} // verus!
