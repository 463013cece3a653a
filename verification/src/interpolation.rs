//! Position of a pixel along a segment, as a pair of exact weights.

use crate::line::abs;
use vstd::prelude::*;

verus! {

/// What goes wrong when a computation is asked for a value that does not exist.
#[derive(Clone, Copy, Debug, PartialEq, Eq)]
pub enum DomainError {
    /// The two ends of the segment are the same pixel.
    ZeroLengthSegment,
}

/// Two weights `k1 / den` and `k2 / den` on the two ends of a segment. They add up to one:
/// `k1 + k2 == den`, and `den` is positive.
#[derive(Clone, Copy, Debug, PartialEq, Eq)]
pub struct SegmentWeights {
    pub k1: i64,
    pub k2: i64,
    pub den: i64,
}

/// The length by which positions along the segment `d1`, `d2` are measured: its extent in x,
/// or in y where it has none in x.
pub open spec fn interpolation_den(d1: (int, int), d2: (int, int)) -> int {
    if d1.0 != d2.0 {
        abs(d1.0 - d2.0)
    } else {
        abs(d1.1 - d2.1)
    }
}

/// The distance of `d` from the end `d1`, measured on the same axis as `interpolation_den`.
pub open spec fn interpolation_num(d: (int, int), d1: (int, int), d2: (int, int)) -> int {
    if d1.0 != d2.0 {
        abs(d1.0 - d.0)
    } else {
        abs(d1.1 - d.1)
    }
}

/// The weights of `d` on a segment whose ends differ.
pub(crate) fn interpolate(d: (i32, i32), d1: (i32, i32), d2: (i32, i32)) -> (w: SegmentWeights)
    requires
        d1 != d2,
    ensures
        w.den == interpolation_den((d1.0 as int, d1.1 as int), (d2.0 as int, d2.1 as int)),
        w.k2 == interpolation_num(
            (d.0 as int, d.1 as int),
            (d1.0 as int, d1.1 as int),
            (d2.0 as int, d2.1 as int),
        ),
        w.k1 == w.den - w.k2,
        w.den > 0,
{
    let dx: i64 = d1.0 as i64 - d2.0 as i64;
    if dx != 0 {
        let den: i64 = if dx < 0 {
            -dx
        } else {
            dx
        };
        let off: i64 = d1.0 as i64 - d.0 as i64;
        let k2: i64 = if off < 0 {
            -off
        } else {
            off
        };
        SegmentWeights { k1: den - k2, k2: k2, den: den }
    } else {
        let dy: i64 = d1.1 as i64 - d2.1 as i64;
        let den: i64 = if dy < 0 {
            -dy
        } else {
            dy
        };
        let off: i64 = d1.1 as i64 - d.1 as i64;
        let k2: i64 = if off < 0 {
            -off
        } else {
            off
        };
        SegmentWeights { k1: den - k2, k2: k2, den: den }
    }
}

/// Where the pixel `d` stands between the ends `d1` and `d2` of a segment.
///
/// The second weight is the distance of `d` from `d1` as a fraction of the segment's extent,
/// taken in x, or in y for a vertical segment; the first weight is what is left to one. A
/// segment whose ends coincide has no extent, and the call fails.
pub fn linear_interpolation(d: (i32, i32), d1: (i32, i32), d2: (i32, i32)) -> (r: Result<
    SegmentWeights,
    DomainError,
>)
    ensures
        d1 == d2 <==> r is Err,
        r matches Err(e) ==> e == DomainError::ZeroLengthSegment,
        r matches Ok(w) ==> {
            &&& w.den == interpolation_den(
                (d1.0 as int, d1.1 as int),
                (d2.0 as int, d2.1 as int),
            )
            &&& w.k2 == interpolation_num(
                (d.0 as int, d.1 as int),
                (d1.0 as int, d1.1 as int),
                (d2.0 as int, d2.1 as int),
            )
            &&& w.k1 == w.den - w.k2
            &&& w.den > 0
        },
{
    if d1.0 == d2.0 && d1.1 == d2.1 {
        Err(DomainError::ZeroLengthSegment)
    } else {
        Ok(interpolate(d, d1, d2))
    }
}

} // verus!
