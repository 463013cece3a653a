//! The records that flow through the pipeline, and what the scan conversion of a triangle is.
//!
//! A triangle is given by three vertices in normalised device coordinates. Its three edges
//! are discretised into edge rasters; for every column of the viewport the lowest and the
//! highest edge raster are kept, and the column is filled between them. Every raster carries
//! three barycentric weights, exact fractions over a common denominator that add up to one.

use crate::fixed::{rasterize_dot_spec, ONE};
use crate::interpolation::{interpolation_den, interpolation_num};
use crate::line::line_spec;
use vstd::prelude::*;

verus! {

/// A vertex after the geometry stage: `(x, y, z)` in normalised device coordinates, each in
/// fixed point.
#[derive(Clone, Copy, Debug, PartialEq, Eq)]
pub struct Vertex {
    pub coords: (i32, i32, i32),
}

/// The three vertices that a triangle's barycentric weights refer to.
pub type Basis = [Vertex; 3];

/// Three weights `num[i] / den` on the vertices of a basis.
#[derive(Clone, Copy, Debug, PartialEq, Eq)]
pub struct Barycentric {
    pub num: [u128; 3],
    pub den: u128,
}

/// Edge rasters have denominators below this bound.
pub const EDGE_DEN_LIMIT: u128 = 0x1_0000_0000;

/// Denominators of the weights that the scan conversion emits stay below this bound.
pub const DEN_LIMIT: u128 = 0x1_0000_0000_0000_0000_0000_0000;

/// Barycentric weights over the mathematical integers.
pub struct Weights {
    pub num: Seq<int>,
    pub den: int,
}

impl Weights {
    /// Three weights, none negative, that add up to one.
    pub open spec fn wf(self) -> bool {
        &&& self.num.len() == 3
        &&& self.den > 0
        &&& self.num[0] >= 0
        &&& self.num[1] >= 0
        &&& self.num[2] >= 0
        &&& self.num[0] + self.num[1] + self.num[2] == self.den
    }
}

impl View for Barycentric {
    type V = Weights;

    open spec fn view(&self) -> Weights {
        Weights { num: Seq::new(3, |i: int| self.num[i] as int), den: self.den as int }
    }
}

/// A pixel of a triangle with its barycentric weights and the basis they refer to.
#[derive(Clone, Copy, Debug)]
pub struct Raster<'a> {
    pub window_coords: (i32, i32),
    pub barycentric: Barycentric,
    pub basis: &'a Basis,
}

/// A raster over the mathematical integers.
pub struct RasterView {
    pub coords: (int, int),
    pub weights: Weights,
    pub basis: Basis,
}

impl<'a> View for Raster<'a> {
    type V = RasterView;

    open spec fn view(&self) -> RasterView {
        RasterView {
            coords: (self.window_coords.0 as int, self.window_coords.1 as int),
            weights: self.barycentric@,
            basis: *self.basis,
        }
    }
}

/// The views of a sequence of rasters.
pub open spec fn raster_views(s: Seq<Raster<'_>>) -> Seq<RasterView> {
    Seq::new(s.len(), |i: int| s[i]@)
}

/// A raster that passed the depth range: its pixel, its depth in fixed point, and the weights
/// from which its other attributes are interpolated.
#[derive(Clone, Copy, Debug, PartialEq, Eq)]
pub struct Fragment {
    pub window_coords: (i32, i32),
    pub depth: i32,
    pub barycentric: Barycentric,
}

/// A fragment over the mathematical integers.
pub struct FragmentView {
    pub coords: (int, int),
    pub depth: int,
    pub weights: Weights,
}

impl View for Fragment {
    type V = FragmentView;

    open spec fn view(&self) -> FragmentView {
        FragmentView {
            coords: (self.window_coords.0 as int, self.window_coords.1 as int),
            depth: self.depth as int,
            weights: self.barycentric@,
        }
    }
}

/// The views of a sequence of fragments.
pub open spec fn fragment_views(s: Seq<Fragment>) -> Seq<FragmentView> {
    Seq::new(s.len(), |i: int| s[i]@)
}

/// The pixel onto which vertex `i` of a basis projects in a viewport of the given shape.
pub open spec fn projected(basis: Basis, i: int, shape: (int, int)) -> (int, int) {
    rasterize_dot_spec((basis[i].coords.0 as int, basis[i].coords.1 as int), shape)
}

/// The weights of the pixel `p` on the edge from `fst` to `snd`, which joins the vertices
/// `map.0` and `map.1` of the basis: the share of the first end on lane `map.0`, that of the
/// second on lane `map.1`, nothing on the third lane.
pub open spec fn edge_weights(
    p: (int, int),
    fst: (int, int),
    snd: (int, int),
    map: (int, int),
) -> Weights {
    let den = interpolation_den(fst, snd);
    let k2 = interpolation_num(p, fst, snd);
    Weights {
        num: Seq::new(
            3,
            |l: int|
                if l == map.1 {
                    k2
                } else if l == map.0 {
                    den - k2
                } else {
                    0
                },
        ),
        den: den,
    }
}

/// The rasters of the edge between the vertices `map.0` and `map.1` of a basis.
pub open spec fn edge_rasters(basis: Basis, map: (int, int), shape: (int, int)) -> Seq<
    RasterView,
> {
    let fst = projected(basis, map.0, shape);
    let snd = projected(basis, map.1, shape);
    let px = line_spec(fst, snd);
    Seq::new(
        px.len(),
        |i: int|
            RasterView { coords: px[i], weights: edge_weights(px[i], fst, snd, map), basis: basis },
    )
}

/// The rasters of the three edges of a triangle, in the order in which they are scanned.
pub open spec fn triangle_edges(basis: Basis, shape: (int, int)) -> Seq<RasterView> {
    edge_rasters(basis, (0, 1), shape) + edge_rasters(basis, (1, 2), shape) + edge_rasters(
        basis,
        (0, 2),
        shape,
    )
}

/// The lowest and the highest raster of a column after one more raster of that column.
pub open spec fn hull_step(prev: Option<(RasterView, RasterView)>, r: RasterView) -> Option<
    (RasterView, RasterView),
> {
    match prev {
        None => Some((r, r)),
        Some((lo, hi)) => Some(
            (
                if lo.coords.1 > r.coords.1 {
                    r
                } else {
                    lo
                },
                if hi.coords.1 < r.coords.1 {
                    r
                } else {
                    hi
                },
            ),
        ),
    }
}

/// The lowest and the highest of the rasters of `rs` that lie in column `x`, the earlier one
/// where several are equally low or high; `None` where the column holds no raster.
pub open spec fn column_hull(rs: Seq<RasterView>, x: int) -> Option<(RasterView, RasterView)>
    decreases rs.len(),
{
    if rs.len() == 0 {
        None
    } else {
        let prev = column_hull(rs.drop_last(), x);
        if rs.last().coords.0 == x {
            hull_step(prev, rs.last())
        } else {
            prev
        }
    }
}

/// The weights `((d - n) * lo + n * hi) / d`, `n` steps up from `lo` on the way to `hi`,
/// which is `d` steps away. With no way to go the weights are those of `lo`.
pub open spec fn blend(lo: Weights, hi: Weights, n: int, d: int) -> Weights {
    if d == 0 {
        lo
    } else {
        Weights {
            num: Seq::new(
                3,
                |l: int| (d - n) * lo.num[l] * hi.den + n * hi.num[l] * lo.den,
            ),
            den: d * lo.den * hi.den,
        }
    }
}

/// The rasters that fill a column between its lowest and its highest edge raster, both
/// included, from the bottom up.
pub open spec fn column_rasters(hull: Option<(RasterView, RasterView)>) -> Seq<RasterView> {
    match hull {
        None => Seq::empty(),
        Some((lo, hi)) => Seq::new(
            (hi.coords.1 - lo.coords.1 + 1) as nat,
            |i: int|
                RasterView {
                    coords: (lo.coords.0, lo.coords.1 + i),
                    weights: blend(lo.weights, hi.weights, i, hi.coords.1 - lo.coords.1),
                    basis: lo.basis,
                },
        ),
    }
}

/// The rasters of the first `upto` columns of a viewport that is `width` pixels wide, column
/// by column from the left. Column number `c` holds the pixels with `x == c - width / 2`.
pub open spec fn scan_columns(edges: Seq<RasterView>, width: int, upto: int) -> Seq<RasterView>
    decreases upto,
{
    if upto <= 0 {
        Seq::empty()
    } else {
        scan_columns(edges, width, upto - 1) + column_rasters(
            column_hull(edges, upto - 1 - width / 2),
        )
    }
}

/// The rasters of a triangle in a viewport of the given shape.
pub open spec fn polygon_rasters(basis: Basis, shape: (int, int)) -> Seq<RasterView> {
    scan_columns(triangle_edges(basis, shape), shape.0, shape.0)
}


impl Barycentric {
    /// The weights are three fractions, none negative, that add up to one, and their
    /// denominator is small enough for them to be multiplied with a depth.
    pub open spec fn wf(&self) -> bool {
        self@.wf() && self.den < DEN_LIMIT
    }
}

/// What holds of every edge raster of a triangle: its weights are well formed, their
/// denominator fits in 32 bits, its pixel has coordinates that fit in 32 bits, and it refers
/// to the triangle's basis.
pub open spec fn is_edge_raster(r: RasterView, basis: Basis) -> bool {
    &&& r.weights.wf()
    &&& r.weights.den < EDGE_DEN_LIMIT
    &&& r.basis == basis
    &&& i32::MIN <= r.coords.0 <= i32::MAX
    &&& i32::MIN <= r.coords.1 <= i32::MAX
}

/// The hull of a column is made of rasters of that column, the lower one first, and every
/// raster of the column lies between the two. A column without a hull holds no raster.
pub proof fn lemma_column_hull(rs: Seq<RasterView>, x: int)
    ensures
        column_hull(rs, x) is None ==> forall|k: int|
            0 <= k < rs.len() ==> (#[trigger] rs[k]).coords.0 != x,
        column_hull(rs, x) matches Some((lo, hi)) ==> {
            &&& rs.contains(lo)
            &&& rs.contains(hi)
            &&& lo.coords.0 == x
            &&& hi.coords.0 == x
            &&& lo.coords.1 <= hi.coords.1
            &&& forall|k: int|
                0 <= k < rs.len() && (#[trigger] rs[k]).coords.0 == x ==> lo.coords.1
                    <= rs[k].coords.1 <= hi.coords.1
        },
    decreases rs.len(),
{
    if rs.len() > 0 {
        let init = rs.drop_last();
        lemma_column_hull(init, x);
        assert(forall|k: int| 0 <= k < init.len() ==> init[k] == rs[k]);
        assert(rs.last() == rs[rs.len() - 1]);
        match column_hull(rs, x) {
            None => {
                assert forall|k: int| 0 <= k < rs.len() implies (#[trigger] rs[k]).coords.0
                    != x by {
                    if k < init.len() {
                        assert(init[k] == rs[k]);
                    }
                }
            },
            Some((lo, hi)) => {
                if rs.last().coords.0 == x {
                    match column_hull(init, x) {
                        None => {},
                        Some((plo, phi)) => {
                            let i = choose|i: int| 0 <= i < init.len() && init[i] == plo;
                            assert(rs[i] == plo);
                            let j = choose|j: int| 0 <= j < init.len() && init[j] == phi;
                            assert(rs[j] == phi);
                        },
                    }
                } else {
                    let i = choose|i: int| 0 <= i < init.len() && init[i] == lo;
                    assert(rs[i] == lo);
                    let j = choose|j: int| 0 <= j < init.len() && init[j] == hi;
                    assert(rs[j] == hi);
                }
                assert forall|k: int|
                    0 <= k < rs.len() && (#[trigger] rs[k]).coords.0 == x implies lo.coords.1
                    <= rs[k].coords.1 <= hi.coords.1 by {
                    if k < init.len() {
                        assert(init[k] == rs[k]);
                    }
                }
            },
        }
    }
}

/// The depth of a raster: the depths of the three vertices of the basis, each weighted with
/// its lane, rounded down to a whole number of depth units.
pub open spec fn interpolated_depth(w: Weights, basis: Basis) -> int {
    (w.num[0] * basis[0].coords.2 + w.num[1] * basis[1].coords.2 + w.num[2]
        * basis[2].coords.2) / w.den
}

/// The depth lies in the normalised range from -1 to 1, both included.
pub open spec fn depth_visible(depth: int) -> bool {
    -ONE <= depth <= ONE
}

/// The fragment that a raster becomes.
pub open spec fn fragment_of(r: RasterView) -> FragmentView {
    FragmentView {
        coords: r.coords,
        depth: interpolated_depth(r.weights, r.basis),
        weights: r.weights,
    }
}

/// The fragments of a sequence of rasters, in the order of the rasters: one for every raster
/// whose depth lies in the normalised range.
pub open spec fn fragments_of(rs: Seq<RasterView>) -> Seq<FragmentView>
    decreases rs.len(),
{
    if rs.len() == 0 {
        Seq::empty()
    } else {
        let rest = fragments_of(rs.drop_last());
        let f = fragment_of(rs.last());
        if depth_visible(f.depth) {
            rest.push(f)
        } else {
            rest
        }
    }
}

} // verus!
