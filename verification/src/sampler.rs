//! The colour of a fragment.
//!
//! The pipeline does not know how a fragment gets its colour. It hands the face that the
//! fragment belongs to and the fragment's barycentric weights to a sampler, a function that
//! interpolates whatever attributes it keeps for the vertices of that face and looks the
//! colour up.

use crate::raster::{Barycentric, Weights};
use vstd::prelude::*;

verus! {

/// The sampler may be asked for the colour of any point with well-formed weights.
pub open spec fn samples_everywhere<F: Fn((i32, i32, i32), &Barycentric) -> (u8, u8, u8)>(
    sampler: F,
) -> bool {
    forall|face: (i32, i32, i32), weights: &Barycentric|
        weights.wf() ==> #[trigger] call_requires(sampler, (face, weights))
}

/// `color` is a colour that the sampler gives the point with the given weights on the face
/// with the given vertex indices.
pub open spec fn sampled<F: Fn((i32, i32, i32), &Barycentric) -> (u8, u8, u8)>(
    sampler: F,
    face: (i32, i32, i32),
    weights: Weights,
    color: (u8, u8, u8),
) -> bool {
    exists|b: Barycentric| b@ == weights && #[trigger] call_ensures(sampler, (face, &b), color)
}

} // verus!
