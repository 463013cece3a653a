//! The stages of the pipeline: edges, scan conversion, fragments, and the drawing of faces.

use crate::fixed::rasterize_dot;
use crate::framebuffer::{FrameView, Julia3D};
use crate::interpolation::{interpolate, interpolation_den, interpolation_num};
use crate::line::{coords, lemma_line_in_bounding_box, line, line_spec, pixels};
use crate::raster::{
    blend, column_hull, column_rasters, edge_rasters, edge_weights, fragment_of, fragment_views,
    fragments_of, interpolated_depth, is_edge_raster, lemma_column_hull, polygon_rasters,
    projected, raster_views, scan_columns, triangle_edges, Barycentric, Basis, Fragment,
    FragmentView, Raster, RasterView, Vertex, Weights, DEN_LIMIT, EDGE_DEN_LIMIT,
};
use crate::sampler::{sampled, samples_everywhere};
use vstd::arithmetic::div_mod::{
    lemma_fundamental_div_mod, lemma_fundamental_div_mod_converse, lemma_mod_bound,
};
use vstd::prelude::*;

verus! {

/// On a segment that has the pixel `p`, the weights of `p` are two fractions between zero and
/// one that add up to one, and their denominator fits in 32 bits.
pub proof fn lemma_edge_weights_wf(fst: (int, int), snd: (int, int), map: (int, int), i: int)
    requires
        0 <= i < line_spec(fst, snd).len(),
        0 <= map.0 < 3,
        0 <= map.1 < 3,
        map.0 != map.1,
        i32::MIN <= fst.0 <= i32::MAX,
        i32::MIN <= fst.1 <= i32::MAX,
        i32::MIN <= snd.0 <= i32::MAX,
        i32::MIN <= snd.1 <= i32::MAX,
    ensures
        edge_weights(line_spec(fst, snd)[i], fst, snd, map).wf(),
        edge_weights(line_spec(fst, snd)[i], fst, snd, map).den < EDGE_DEN_LIMIT,
        0 <= interpolation_num(line_spec(fst, snd)[i], fst, snd) <= interpolation_den(fst, snd),
{
    lemma_line_in_bounding_box(fst, snd, i);
}

/// A product of three factors below 2^32 is below 2^96.
proof fn lemma_mul3_bound(a: int, b: int, c: int)
    requires
        0 <= a < 0x1_0000_0000,
        0 <= b < 0x1_0000_0000,
        0 <= c < 0x1_0000_0000,
    ensures
        0 <= a * b < 0x1_0000_0000_0000_0000,
        0 <= a * b * c < 0x1_0000_0000_0000_0000_0000_0000,
{
    assert(0 <= a * b <= 0xffff_ffff * 0xffff_ffff) by (nonlinear_arith)
        requires
            0 <= a <= 0xffff_ffff,
            0 <= b <= 0xffff_ffff,
    ;
    let ab = a * b;
    assert(0 <= ab * c <= 0xffff_fffe_0000_0001 * 0xffff_ffff) by (nonlinear_arith)
        requires
            0 <= ab <= 0xffff_fffe_0000_0001,
            0 <= c <= 0xffff_ffff,
    ;
}

/// The sum of three blended numerators, lane by lane.
proof fn lemma_blend_sum(m: int, n: int, a: (int, int, int), ad: int, b: (int, int, int), bd: int)
    requires
        a.0 + a.1 + a.2 == ad,
        b.0 + b.1 + b.2 == bd,
    ensures
        (m * a.0 * bd + n * b.0 * ad) + (m * a.1 * bd + n * b.1 * ad) + (m * a.2 * bd + n * b.2
            * ad) == (m + n) * ad * bd,
{
    assert(m * a.0 * bd + m * a.1 * bd + m * a.2 * bd == m * (a.0 + a.1 + a.2) * bd)
        by (nonlinear_arith);
    assert(n * b.0 * ad + n * b.1 * ad + n * b.2 * ad == n * (b.0 + b.1 + b.2) * ad)
        by (nonlinear_arith);
    assert(m * ad * bd + n * bd * ad == (m + n) * ad * bd) by (nonlinear_arith);
}

/// Blending two well-formed weights gives well-formed weights: the three blended numerators
/// add up to the blended denominator.
pub proof fn lemma_blend_wf(lo: Weights, hi: Weights, n: int, d: int)
    requires
        lo.wf(),
        hi.wf(),
        0 <= n <= d,
    ensures
        blend(lo, hi, n, d).wf(),
        lo.den < EDGE_DEN_LIMIT && hi.den < EDGE_DEN_LIMIT && d < EDGE_DEN_LIMIT ==> blend(
            lo,
            hi,
            n,
            d,
        ).den < DEN_LIMIT,
{
    if d != 0 {
        let w = blend(lo, hi, n, d);
        assert forall|l: int| 0 <= l < 3 implies (#[trigger] w.num[l]) >= 0 by {
            assert((d - n) * lo.num[l] * hi.den >= 0 && n * hi.num[l] * lo.den >= 0)
                by (nonlinear_arith)
                requires
                    0 <= n <= d,
                    lo.num[l] >= 0,
                    hi.num[l] >= 0,
                    lo.den > 0,
                    hi.den > 0,
            ;
        }
        lemma_blend_sum(
            d - n,
            n,
            (lo.num[0], lo.num[1], lo.num[2]),
            lo.den,
            (hi.num[0], hi.num[1], hi.num[2]),
            hi.den,
        );
        assert(w.den > 0) by (nonlinear_arith)
            requires
                w.den == d * lo.den * hi.den,
                d > 0,
                lo.den > 0,
                hi.den > 0,
        ;
        if lo.den < EDGE_DEN_LIMIT && hi.den < EDGE_DEN_LIMIT && d < EDGE_DEN_LIMIT {
            lemma_mul3_bound(d, lo.den, hi.den);
        }
    }
}

/// The weights `n` steps up from `lo` on the way to `hi`, which is `d` steps away.
fn blend_weights(lo: &Barycentric, hi: &Barycentric, n: u128, d: u128) -> (w: Barycentric)
    requires
        lo@.wf(),
        hi@.wf(),
        lo.den < EDGE_DEN_LIMIT,
        hi.den < EDGE_DEN_LIMIT,
        n <= d < EDGE_DEN_LIMIT,
    ensures
        w@ == blend(lo@, hi@, n as int, d as int),
        w.wf(),
{
    proof {
        lemma_blend_wf(lo@, hi@, n as int, d as int);
    }
    if d == 0 {
        *lo
    } else {
        let ghost spec_w = blend(lo@, hi@, n as int, d as int);
        let mut num: [u128; 3] = [0, 0, 0];
        let mut l: usize = 0;
        while l < 3
            invariant
                l <= 3,
                lo@.wf(),
                hi@.wf(),
                lo.den < EDGE_DEN_LIMIT,
                hi.den < EDGE_DEN_LIMIT,
                n <= d < EDGE_DEN_LIMIT,
                d != 0,
                spec_w == blend(lo@, hi@, n as int, d as int),
                forall|j: int| 0 <= j < l ==> num[j] == spec_w.num[j],
            decreases 3 - l,
        {
            proof {
                assert(lo@.num[l as int] == lo.num[l as int]);
                assert(hi@.num[l as int] == hi.num[l as int]);
                lemma_mul3_bound((d - n) as int, lo.num[l as int] as int, hi.den as int);
                lemma_mul3_bound(n as int, hi.num[l as int] as int, lo.den as int);
            }
            num[l] = (d - n) * lo.num[l] * hi.den + n * hi.num[l] * lo.den;
            l += 1;
        }
        proof {
            lemma_mul3_bound(d as int, lo.den as int, hi.den as int);
        }
        let w = Barycentric { num: num, den: d * lo.den * hi.den };
        assert(w@.num =~= spec_w.num);
        w
    }
}

/// Shifting the three depths of a basis by `shift` shifts the depth of well-formed weights
/// by as much.
proof fn lemma_interpolated_depth_shift(w: Weights, basis: Basis, shift: int)
    requires
        w.wf(),
    ensures
        (w.num[0] * (basis[0].coords.2 + shift) + w.num[1] * (basis[1].coords.2 + shift)
            + w.num[2] * (basis[2].coords.2 + shift)) / w.den == interpolated_depth(w, basis)
            + shift,
{
    let z0 = basis[0].coords.2 as int;
    let z1 = basis[1].coords.2 as int;
    let z2 = basis[2].coords.2 as int;
    let sum = w.num[0] * z0 + w.num[1] * z1 + w.num[2] * z2;
    let q = sum / w.den;
    let r = sum % w.den;
    lemma_fundamental_div_mod(sum, w.den);
    lemma_mod_bound(sum, w.den);
    assert(w.num[0] * (z0 + shift) == w.num[0] * z0 + w.num[0] * shift) by (nonlinear_arith);
    assert(w.num[1] * (z1 + shift) == w.num[1] * z1 + w.num[1] * shift) by (nonlinear_arith);
    assert(w.num[2] * (z2 + shift) == w.num[2] * z2 + w.num[2] * shift) by (nonlinear_arith);
    assert(w.num[0] * shift + w.num[1] * shift + w.num[2] * shift == (w.num[0] + w.num[1]
        + w.num[2]) * shift) by (nonlinear_arith);
    assert((q + shift) * w.den == w.den * q + w.den * shift) by (nonlinear_arith);
    lemma_fundamental_div_mod_converse(
        w.num[0] * (z0 + shift) + w.num[1] * (z1 + shift) + w.num[2] * (z2 + shift),
        w.den,
        q + shift,
        r,
    );
}

/// The depth of well-formed weights lies between any two bounds between which the three
/// depths of the basis lie.
pub proof fn lemma_interpolated_depth_bounds(w: Weights, basis: Basis, low: int, high: int)
    requires
        w.wf(),
        low <= basis[0].coords.2 <= high,
        low <= basis[1].coords.2 <= high,
        low <= basis[2].coords.2 <= high,
    ensures
        low <= interpolated_depth(w, basis) <= high,
{
    let z0 = basis[0].coords.2 as int;
    let z1 = basis[1].coords.2 as int;
    let z2 = basis[2].coords.2 as int;
    let sum = w.num[0] * z0 + w.num[1] * z1 + w.num[2] * z2;
    let q = sum / w.den;
    let r = sum % w.den;
    lemma_fundamental_div_mod(sum, w.den);
    lemma_mod_bound(sum, w.den);
    assert(w.den * low <= sum <= w.den * high) by (nonlinear_arith)
        requires
            sum == w.num[0] * z0 + w.num[1] * z1 + w.num[2] * z2,
            w.num[0] + w.num[1] + w.num[2] == w.den,
            w.num[0] >= 0,
            w.num[1] >= 0,
            w.num[2] >= 0,
            low <= z0 <= high,
            low <= z1 <= high,
            low <= z2 <= high,
    ;
    assert(low <= q <= high) by (nonlinear_arith)
        requires
            w.den * low <= sum <= w.den * high,
            sum == w.den * q + r,
            0 <= r < w.den,
    ;
}

/// The depth of a raster.
fn depth_of(weights: &Barycentric, basis: &Basis) -> (depth: i32)
    requires
        weights.wf(),
    ensures
        depth == interpolated_depth(weights@, *basis),
{
    let z0: u128 = (basis[0].coords.2 as i64 + 0x8000_0000) as u128;
    let z1: u128 = (basis[1].coords.2 as i64 + 0x8000_0000) as u128;
    let z2: u128 = (basis[2].coords.2 as i64 + 0x8000_0000) as u128;
    proof {
        lemma_interpolated_depth_shift(weights@, *basis, 0x8000_0000);
        lemma_interpolated_depth_bounds(weights@, *basis, i32::MIN as int, i32::MAX as int);
        assert(weights@.num[0] == weights.num[0]);
        assert(weights@.num[1] == weights.num[1]);
        assert(weights@.num[2] == weights.num[2]);
        let n0 = weights.num[0] as int;
        let n1 = weights.num[1] as int;
        let n2 = weights.num[2] as int;
        assert(n0 * z0 >= 0 && n1 * z1 >= 0 && n2 * z2 >= 0 && n0 * z0 + n1 * z1 + n2 * z2 <= (n0
            + n1 + n2) * 0xffff_ffff) by (nonlinear_arith)
            requires
                0 <= n0,
                0 <= n1,
                0 <= n2,
                0 <= z0 <= 0xffff_ffff,
                0 <= z1 <= 0xffff_ffff,
                0 <= z2 <= 0xffff_ffff,
        ;
    }
    let sum: u128 = weights.num[0] * z0 + weights.num[1] * z1 + weights.num[2] * z2;
    let shifted: u128 = sum / weights.den;
    (shifted as i64 - 0x8000_0000) as i32
}

/// The basis of a face: the vertices that its three indices name.
pub open spec fn face_basis(vertices: Seq<Vertex>, face: (i32, i32, i32)) -> Basis {
    [vertices[face.0 as int], vertices[face.1 as int], vertices[face.2 as int]]
}

/// The three indices of a face name vertices.
pub open spec fn face_in_range(face: (i32, i32, i32), vertices: int) -> bool {
    &&& 0 <= face.0 < vertices
    &&& 0 <= face.1 < vertices
    &&& 0 <= face.2 < vertices
}

/// The fragments of a face in a viewport of the given shape.
pub open spec fn face_fragments(vertices: Seq<Vertex>, face: (i32, i32, i32), shape: (int, int)) -> Seq<
    FragmentView,
> {
    fragments_of(polygon_rasters(face_basis(vertices, face), shape))
}

/// The frame after fragments were offered to it one after the other, fragment number `k`
/// with the colour `colors[k]`.
pub open spec fn resolve(
    frame: FrameView,
    fragments: Seq<FragmentView>,
    colors: Seq<(u8, u8, u8)>,
) -> FrameView
    decreases fragments.len(),
{
    if fragments.len() == 0 {
        frame
    } else {
        let f = fragments.last();
        resolve(frame, fragments.drop_last(), colors.drop_last()).write(
            f.coords,
            f.depth,
            colors.last(),
        )
    }
}

/// There is one colour for every fragment, and the colour of every fragment that passes the
/// depth test when its turn comes is one that the sampler gives it.
pub open spec fn resolved_by<F: Fn((i32, i32, i32), &Barycentric) -> (u8, u8, u8)>(
    sampler: F,
    frame: FrameView,
    fragments: Seq<FragmentView>,
    face: (i32, i32, i32),
    colors: Seq<(u8, u8, u8)>,
) -> bool
    decreases fragments.len(),
{
    if fragments.len() == 0 {
        colors.len() == 0
    } else {
        let f = fragments.last();
        &&& colors.len() == fragments.len()
        &&& resolved_by(sampler, frame, fragments.drop_last(), face, colors.drop_last())
        &&& resolve(frame, fragments.drop_last(), colors.drop_last()).wins(f.coords, f.depth)
            ==> sampled(sampler, face, f.weights, colors.last())
    }
}

/// The frame after the faces were drawn into it in their order, fragment number `k` of face
/// number `f` with the colour `colors[f][k]`.
pub open spec fn draw_faces(
    frame: FrameView,
    vertices: Seq<Vertex>,
    faces: Seq<(i32, i32, i32)>,
    colors: Seq<Seq<(u8, u8, u8)>>,
) -> FrameView
    decreases faces.len(),
{
    if faces.len() == 0 {
        frame
    } else {
        let before = draw_faces(frame, vertices, faces.drop_last(), colors.drop_last());
        resolve(before, face_fragments(vertices, faces.last(), before.shape), colors.last())
    }
}

/// There is one sequence of colours for every face, and the colour of every fragment that
/// passes the depth test when its turn comes is one that the sampler gives it.
pub open spec fn drawn_by<F: Fn((i32, i32, i32), &Barycentric) -> (u8, u8, u8)>(
    sampler: F,
    frame: FrameView,
    vertices: Seq<Vertex>,
    faces: Seq<(i32, i32, i32)>,
    colors: Seq<Seq<(u8, u8, u8)>>,
) -> bool
    decreases faces.len(),
{
    if faces.len() == 0 {
        colors.len() == 0
    } else {
        let before = draw_faces(frame, vertices, faces.drop_last(), colors.drop_last());
        &&& colors.len() == faces.len()
        &&& drawn_by(sampler, frame, vertices, faces.drop_last(), colors.drop_last())
        &&& resolved_by(
            sampler,
            before,
            face_fragments(vertices, faces.last(), before.shape),
            faces.last(),
            colors.last(),
        )
    }
}

impl Julia3D {
    /// The rasters of the edge between the vertices `map.0` and `map.1` of a basis: the pixels
    /// of the segment between their projections, each with the weights of its position along
    /// the segment on the lanes of the two vertices.
    pub fn rasterize_line<'a>(&self, basis: &'a Basis, map: (usize, usize)) -> (rasters: Vec<
        Raster<'a>,
    >)
        requires
            map.0 < 3,
            map.1 < 3,
        ensures
            raster_views(rasters@) == edge_rasters(
                *basis,
                (map.0 as int, map.1 as int),
                self@.shape,
            ),
            forall|j: int| 0 <= j < rasters@.len() ==> is_edge_raster((#[trigger] rasters@[j])@, *basis),
    {
        let shape = self.shape();
        let fst = rasterize_dot((basis[map.0].coords.0, basis[map.0].coords.1), shape);
        let snd = rasterize_dot((basis[map.1].coords.0, basis[map.1].coords.1), shape);
        let px = line(fst, snd);
        let ghost spec_px = line_spec(coords(fst), coords(snd));
        let ghost smap = (map.0 as int, map.1 as int);
        let mut rasters: Vec<Raster<'a>> = Vec::new();
        let mut i: usize = 0;
        while i < px.len()
            invariant
                i <= px.len(),
                map.0 < 3,
                map.1 < 3,
                smap == (map.0 as int, map.1 as int),
                pixels(px@) == spec_px,
                spec_px == line_spec(coords(fst), coords(snd)),
                rasters@.len() == i,
                forall|j: int|
                    0 <= j < i ==> (#[trigger] rasters@[j])@ == edge_rasters(
                        *basis,
                        smap,
                        self@.shape,
                    )[j],
                forall|j: int| 0 <= j < i ==> is_edge_raster((#[trigger] rasters@[j])@, *basis),
                coords(fst) == projected(*basis, smap.0, self@.shape),
                coords(snd) == projected(*basis, smap.1, self@.shape),
            decreases px.len() - i,
        {
            let p = px[i];
            assert(coords(p) == spec_px[i as int]) by {
                assert(pixels(px@)[i as int] == coords(px@[i as int]));
            }
            proof {
                lemma_line_in_bounding_box(coords(fst), coords(snd), i as int);
            }
            let w = interpolate(p, fst, snd);
            let mut num: [u128; 3] = [0, 0, 0];
            num[map.0] = w.k1 as u128;
            num[map.1] = w.k2 as u128;
            let weights = Barycentric { num: num, den: w.den as u128 };
            assert(weights@.num =~= edge_weights(coords(p), coords(fst), coords(snd), smap).num);
            rasters.push(Raster { window_coords: p, barycentric: weights, basis: basis });
            i += 1;
        }
        assert(raster_views(rasters@) =~= edge_rasters(*basis, smap, self@.shape));
        rasters
    }

    /// The rasters of a triangle. The three edges are discretised; for every column of the
    /// viewport the lowest and the highest edge raster are kept, and the column is filled from
    /// the one to the other, the weights blended by the position between them. Edge rasters
    /// in columns outside the viewport are left out. The rasters come column by column from
    /// the left, and from the bottom up within a column.
    pub fn rasterize_polygon<'a>(&self, basis: &'a Basis) -> (rasters: Vec<Raster<'a>>)
        ensures
            raster_views(rasters@) == polygon_rasters(*basis, self@.shape),
            forall|j: int|
                0 <= j < rasters@.len() ==> (#[trigger] rasters@[j]).barycentric.wf()
                    && rasters@[j].basis == basis,
    {
        let mut edges = self.rasterize_line(basis, (0, 1));
        let mut bc = self.rasterize_line(basis, (1, 2));
        let mut ac = self.rasterize_line(basis, (0, 2));
        edges.append(&mut bc);
        edges.append(&mut ac);
        let ghost all = raster_views(edges@);
        assert(all =~= triangle_edges(*basis, self@.shape));
        let width: i32 = self.shape().0;
        let w_2: i32 = width / 2;

        let mut scanline: Vec<Option<(Raster<'a>, Raster<'a>)>> = Vec::new();
        let mut c: i32 = 0;
        while c < width
            invariant
                0 <= c <= width,
                scanline@.len() == c,
                forall|k: int| 0 <= k < c ==> (#[trigger] scanline@[k]) is None,
            decreases width - c,
        {
            scanline.push(None);
            c += 1;
        }

        let mut n: usize = 0;
        while n < edges.len()
            invariant
                n <= edges@.len(),
                all == raster_views(edges@),
                0 <= width,
                w_2 == width / 2,
                scanline@.len() == width,
                forall|k: int|
                    0 <= k < width ==> hull_view(#[trigger] scanline@[k]) == column_hull(
                        all.take(n as int),
                        k - w_2,
                    ),
            decreases edges@.len() - n,
        {
            let raster = edges[n];
            let ghost before = all.take(n as int);
            let ghost after = all.take(n + 1);
            assert(after.drop_last() =~= before);
            assert(after.last() == raster@);
            let index: i64 = raster.window_coords.0 as i64 + w_2 as i64;
            if 0 <= index && index < width as i64 {
                let index: usize = index as usize;
                let merged = match scanline[index] {
                    None => (raster, raster),
                    Some((rast_min, rast_max)) => (
                        if rast_min.window_coords.1 > raster.window_coords.1 {
                            raster
                        } else {
                            rast_min
                        },
                        if rast_max.window_coords.1 < raster.window_coords.1 {
                            raster
                        } else {
                            rast_max
                        },
                    ),
                };
                scanline[index] = Some(merged);
            }
            n += 1;
        }
        assert(all.take(edges@.len() as int) =~= all);

        let mut result: Vec<Raster<'a>> = Vec::new();
        let mut col: usize = 0;
        while col < scanline.len()
            invariant
                col <= scanline@.len(),
                scanline@.len() == width,
                w_2 == width / 2,
                width == self@.shape.0,
                all == triangle_edges(*basis, self@.shape),
                forall|k: int| 0 <= k < all.len() ==> is_edge_raster(#[trigger] all[k], *basis),
                forall|k: int|
                    0 <= k < width ==> hull_view(#[trigger] scanline@[k]) == column_hull(
                        all,
                        k - w_2,
                    ),
                raster_views(result@) == scan_columns(all, width as int, col as int),
                forall|j: int|
                    0 <= j < result@.len() ==> (#[trigger] result@[j]).barycentric.wf()
                        && result@[j].basis == basis,
            decreases scanline@.len() - col,
        {
            let ghost hull = column_hull(all, col - w_2);
            let ghost done = scan_columns(all, width as int, col as int);
            assert(hull_view(scanline@[col as int]) == hull);
            match scanline[col] {
                None => {
                    assert(done + column_rasters(hull) =~= done);
                },
                Some((rast_min, rast_max)) => {
                    proof {
                        lemma_column_hull(all, col - w_2);
                    }
                    let x: i32 = rast_min.window_coords.0;
                    let y_min: i64 = rast_min.window_coords.1 as i64;
                    let y_max: i64 = rast_max.window_coords.1 as i64;
                    let d: u128 = (y_max - y_min) as u128;
                    let mut y: i64 = y_min;
                    while y <= y_max
                        invariant
                            y_min <= y <= y_max + 1,
                            y_min == rast_min.window_coords.1,
                            y_max == rast_max.window_coords.1,
                            x == rast_min.window_coords.0,
                            d == y_max - y_min,
                            hull == Some((rast_min@, rast_max@)),
                            is_edge_raster(rast_min@, *basis),
                            is_edge_raster(rast_max@, *basis),
                            raster_views(result@) == done + column_rasters(hull).take(y - y_min),
                            forall|j: int|
                                0 <= j < result@.len() ==> (#[trigger] result@[j]).barycentric.wf()
                                    && result@[j].basis == basis,
                        decreases y_max + 1 - y,
                    {
                        let weights = blend_weights(
                            &rast_min.barycentric,
                            &rast_max.barycentric,
                            (y - y_min) as u128,
                            d,
                        );
                        let ghost prev = raster_views(result@);
                        result.push(
                            Raster { window_coords: (x, y as i32), barycentric: weights, basis: basis },
                        );
                        assert(raster_views(result@) =~= prev.push(result@.last()@));
                        assert(column_rasters(hull).take(y - y_min + 1) =~= column_rasters(
                            hull,
                        ).take(y - y_min).push(column_rasters(hull)[y - y_min]));
                        assert(raster_views(result@) =~= done + column_rasters(hull).take(
                            y - y_min + 1,
                        ));
                        y += 1;
                    }
                    assert(column_rasters(hull).take(y_max - y_min + 1) =~= column_rasters(hull));
                },
            }
            col += 1;
        }
        result
    }

    /// The fragments of a sequence of rasters. The depth of a raster is interpolated from the
    /// depths of its basis with the raster's weights; a raster whose depth lies outside the
    /// normalised range is dropped, every other raster becomes a fragment. The order is kept.
    pub fn fragment(&self, rs: Vec<Raster>) -> (fragments: Vec<Fragment>)
        requires
            forall|j: int| 0 <= j < rs@.len() ==> (#[trigger] rs@[j]).barycentric.wf(),
        ensures
            fragment_views(fragments@) == fragments_of(raster_views(rs@)),
            forall|j: int| 0 <= j < fragments@.len() ==> (#[trigger] fragments@[j]).barycentric.wf(),
    {
        let ghost all = raster_views(rs@);
        let mut fragments: Vec<Fragment> = Vec::new();
        let mut i: usize = 0;
        while i < rs.len()
            invariant
                i <= rs@.len(),
                all == raster_views(rs@),
                forall|j: int| 0 <= j < rs@.len() ==> (#[trigger] rs@[j]).barycentric.wf(),
                fragment_views(fragments@) == fragments_of(all.take(i as int)),
                forall|j: int|
                    0 <= j < fragments@.len() ==> (#[trigger] fragments@[j]).barycentric.wf(),
            decreases rs@.len() - i,
        {
            let r = rs[i];
            assert(all.take(i + 1).drop_last() =~= all.take(i as int));
            assert(all.take(i + 1).last() == r@);
            let depth = depth_of(&r.barycentric, r.basis);
            if -65536 <= depth && depth <= 65536 {
                let ghost prev = fragment_views(fragments@);
                fragments.push(
                    Fragment {
                        window_coords: r.window_coords,
                        depth: depth,
                        barycentric: r.barycentric,
                    },
                );
                assert(fragment_views(fragments@) =~= prev.push(fragment_of(r@)));
            }
            i += 1;
        }
        assert(all.take(rs@.len() as int) =~= all);
        fragments
    }

    /// Draws the faces into the frame, one after the other, on top of what the frame holds.
    ///
    /// A face is three indices into `vertices`. Its triangle is scan converted, every raster
    /// whose depth lies in the normalised range becomes a fragment, and every fragment is
    /// offered to the frame: where it lies inside the viewport and strictly above the depth
    /// stored for its pixel, the sampler is asked for its colour, and the colour and the depth
    /// of the pixel are overwritten.
    pub fn render<F: Fn((i32, i32, i32), &Barycentric) -> (u8, u8, u8)>(
        &mut self,
        vertices: &[Vertex],
        faces: &[(i32, i32, i32)],
        sampler: &F,
    )
        requires
            forall|i: int|
                0 <= i < faces@.len() ==> face_in_range(#[trigger] faces@[i], vertices@.len() as int),
            samples_everywhere(*sampler),
        ensures
            exists|colors: Seq<Seq<(u8, u8, u8)>>|
                {
                    &&& #[trigger] drawn_by(*sampler, old(self)@, vertices@, faces@, colors)
                    &&& final(self)@ == draw_faces(old(self)@, vertices@, faces@, colors)
                },
            final(self)@.wf(),
    {
        self.frame_is_well_formed();
        let ghost mut colors: Seq<Seq<(u8, u8, u8)>> = Seq::empty();
        let mut f: usize = 0;
        assert(faces@.take(0) =~= Seq::<(i32, i32, i32)>::empty());
        while f < faces.len()
            invariant
                f <= faces@.len(),
                forall|i: int|
                    0 <= i < faces@.len() ==> face_in_range(
                        #[trigger] faces@[i],
                        vertices@.len() as int,
                    ),
                samples_everywhere(*sampler),
                drawn_by(*sampler, old(self)@, vertices@, faces@.take(f as int), colors),
                self@ == draw_faces(old(self)@, vertices@, faces@.take(f as int), colors),
                self@.wf(),
            decreases faces@.len() - f,
        {
            let face = faces[f];
            assert(face_in_range(face, vertices@.len() as int));
            let basis: Basis = [
                vertices[face.0 as usize],
                vertices[face.1 as usize],
                vertices[face.2 as usize],
            ];
            assert(basis == face_basis(vertices@, face));
            let ghost before = self@;
            let rasters = self.rasterize_polygon(&basis);
            let fragments = self.fragment(rasters);
            let ghost all = fragment_views(fragments@);
            assert(all == face_fragments(vertices@, face, before.shape));
            let ghost mut face_colors: Seq<(u8, u8, u8)> = Seq::empty();
            let mut k: usize = 0;
            assert(all.take(0) =~= Seq::<FragmentView>::empty());
            while k < fragments.len()
                invariant
                    k <= fragments@.len(),
                    all == fragment_views(fragments@),
                    forall|j: int|
                        0 <= j < fragments@.len() ==> (#[trigger] fragments@[j]).barycentric.wf(),
                    samples_everywhere(*sampler),
                    resolved_by(*sampler, before, all.take(k as int), face, face_colors),
                    self@ == resolve(before, all.take(k as int), face_colors),
                    self@.wf(),
                decreases fragments@.len() - k,
            {
                let color = self.resolve_fragment(&fragments[k], face, sampler);
                proof {
                    let grown = face_colors.push(color@);
                    assert(all.take(k + 1).drop_last() =~= all.take(k as int));
                    assert(all.take(k + 1).last() == fragments@[k as int]@);
                    assert(grown.drop_last() =~= face_colors);
                    assert(grown.last() == color@);
                    face_colors = grown;
                }
                k += 1;
            }
            proof {
                let grown = colors.push(face_colors);
                assert(all.take(fragments@.len() as int) =~= all);
                assert(faces@.take(f + 1).drop_last() =~= faces@.take(f as int));
                assert(faces@.take(f + 1).last() == face);
                assert(grown.drop_last() =~= colors);
                assert(grown.last() == face_colors);
                colors = grown;
            }
            f += 1;
        }
        assert(faces@.take(faces@.len() as int) =~= faces@);
    }
}

/// The hull of a column as it is held during the scan, over the mathematical integers.
pub open spec fn hull_view(h: Option<(Raster<'_>, Raster<'_>)>) -> Option<(RasterView, RasterView)> {
    match h {
        None => None,
        Some((lo, hi)) => Some((lo@, hi@)),
    }
}

} // verus!
