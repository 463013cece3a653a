//! What holds of the scan conversion and of the frame, whatever the triangle.

use crate::framebuffer::{lemma_index_in_bounds, lemma_index_injective, FrameView, DEPTH_SENTINEL};
use crate::line::{
    cross, lemma_cross_antisymmetric, lemma_line_in_bounding_box, lemma_line_reaches_above,
    lemma_line_reaches_below, lemma_line_symmetric, line_spec,
};
use crate::math_utils::oriented_area_int;
use crate::raster::{
    column_hull, column_rasters, depth_visible, edge_rasters, fragment_of, fragments_of,
    is_edge_raster, lemma_column_hull, polygon_rasters, projected, scan_columns, triangle_edges,
    Barycentric, Basis, FragmentView, RasterView, Vertex, Weights, DEN_LIMIT,
};
use crate::rasterizer::{
    draw_faces, drawn_by, face_basis, face_fragments, lemma_blend_wf,
    lemma_interpolated_depth_bounds, resolve, resolved_by,
};
use crate::sampler::sampled;
use vstd::prelude::*;

verus! {

/// The pixel `p` lies in the bounding box of the three pixels `a`, `b`, `c`.
pub open spec fn in_bounding_box(p: (int, int), a: (int, int), b: (int, int), c: (int, int)) -> bool {
    &&& (a.0 <= p.0 || b.0 <= p.0 || c.0 <= p.0)
    &&& (p.0 <= a.0 || p.0 <= b.0 || p.0 <= c.0)
    &&& (a.1 <= p.1 || b.1 <= p.1 || c.1 <= p.1)
    &&& (p.1 <= a.1 || p.1 <= b.1 || p.1 <= c.1)
}

/// The pixel `p` lies in the bounding box of the projections of the three vertices of a
/// basis.
pub open spec fn in_projected_box(p: (int, int), basis: Basis, shape: (int, int)) -> bool {
    in_bounding_box(
        p,
        projected(basis, 0, shape),
        projected(basis, 1, shape),
        projected(basis, 2, shape),
    )
}

/// Every raster of an edge is an edge raster of the basis and lies in the bounding box of the
/// projected triangle.
pub proof fn lemma_edge_rasters(basis: Basis, map: (int, int), shape: (int, int), i: int)
    requires
        0 <= map.0 < 3,
        0 <= map.1 < 3,
        0 <= i < edge_rasters(basis, map, shape).len(),
    ensures
        is_edge_raster(edge_rasters(basis, map, shape)[i], basis),
        in_projected_box(edge_rasters(basis, map, shape)[i].coords, basis, shape),
{
    let fst = projected(basis, map.0, shape);
    let snd = projected(basis, map.1, shape);
    lemma_line_in_bounding_box(fst, snd, i);
}

/// Every edge raster of a triangle is an edge raster of the basis and lies in the bounding
/// box of the projected triangle.
pub proof fn lemma_triangle_edges(basis: Basis, shape: (int, int), i: int)
    requires
        0 <= i < triangle_edges(basis, shape).len(),
    ensures
        is_edge_raster(triangle_edges(basis, shape)[i], basis),
        in_projected_box(triangle_edges(basis, shape)[i].coords, basis, shape),
{
    let ab = edge_rasters(basis, (0, 1), shape);
    let bc = edge_rasters(basis, (1, 2), shape);
    let ac = edge_rasters(basis, (0, 2), shape);
    if i < ab.len() {
        lemma_edge_rasters(basis, (0, 1), shape, i);
    } else if i < ab.len() + bc.len() {
        lemma_edge_rasters(basis, (1, 2), shape, i - ab.len());
    } else {
        lemma_edge_rasters(basis, (0, 2), shape, i - ab.len() - bc.len());
    }
}

/// Raster number `k` of column number `c` of a viewport that is `width` pixels wide.
pub open spec fn column_raster(edges: Seq<RasterView>, width: int, c: int, k: int) -> RasterView {
    column_rasters(column_hull(edges, c - width / 2))[k]
}

/// The number of rasters in column number `c` of a viewport that is `width` pixels wide.
pub open spec fn column_len(edges: Seq<RasterView>, width: int, c: int) -> int {
    column_rasters(column_hull(edges, c - width / 2)).len() as int
}

/// Where a raster of the scan stands: in one column of the viewport, which has a hull, at one
/// step between the two ends of that hull.
pub open spec fn is_scanned(r: RasterView, edges: Seq<RasterView>, width: int, upto: int) -> bool {
    exists|c: int, k: int|
        0 <= c < upto && 0 <= k < column_len(edges, width, c) && r == #[trigger] column_raster(
            edges,
            width,
            c,
            k,
        )
}

/// The scan of the first `upto` columns holds the rasters of the hulls of those columns, and
/// no others.
pub proof fn lemma_scan_columns(edges: Seq<RasterView>, width: int, upto: int)
    ensures
        forall|i: int|
            0 <= i < scan_columns(edges, width, upto).len() ==> is_scanned(
                #[trigger] scan_columns(edges, width, upto)[i],
                edges,
                width,
                upto,
            ),
        forall|c: int, k: int|
            0 <= c < upto && 0 <= k < column_len(edges, width, c) ==> scan_columns(
                edges,
                width,
                upto,
            ).contains(#[trigger] column_raster(edges, width, c, k)),
    decreases upto,
{
    if upto > 0 {
        lemma_scan_columns(edges, width, upto - 1);
        let before = scan_columns(edges, width, upto - 1);
        let column = column_rasters(column_hull(edges, upto - 1 - width / 2));
        let all = scan_columns(edges, width, upto);
        assert(all == before + column);
        assert forall|i: int| 0 <= i < all.len() implies is_scanned(
            #[trigger] all[i],
            edges,
            width,
            upto,
        ) by {
            if i < before.len() {
                assert(all[i] == before[i]);
                assert(is_scanned(before[i], edges, width, upto - 1));
                let (c, k) = choose|c: int, k: int|
                    0 <= c < upto - 1 && 0 <= k < column_len(edges, width, c) && before[i]
                        == #[trigger] column_raster(edges, width, c, k);
                assert(0 <= c < upto && 0 <= k < column_len(edges, width, c) && all[i]
                    == column_raster(edges, width, c, k));
            } else {
                let k = i - before.len();
                assert(all[i] == column[k]);
                assert(0 <= upto - 1 < upto && 0 <= k < column_len(edges, width, upto - 1)
                    && all[i] == column_raster(edges, width, upto - 1, k));
            }
        }
        assert forall|c: int, k: int|
            0 <= c < upto && 0 <= k < column_len(edges, width, c) implies all.contains(
            #[trigger] column_raster(edges, width, c, k),
        ) by {
            if c < upto - 1 {
                let r = column_raster(edges, width, c, k);
                assert(before.contains(r));
                let i = choose|i: int| 0 <= i < before.len() && before[i] == r;
                assert(all[i] == r);
            } else {
                assert(all[before.len() + k] == column[k]);
            }
        }
    }
}

/// Every raster of a triangle lies in the bounding box of the triangle's projected vertices,
/// in a column of the viewport, and carries well-formed weights on the triangle's basis.
pub proof fn lemma_polygon_raster(basis: Basis, shape: (int, int), i: int)
    requires
        0 <= i < polygon_rasters(basis, shape).len(),
    ensures
        in_projected_box(polygon_rasters(basis, shape)[i].coords, basis, shape),
        0 <= polygon_rasters(basis, shape)[i].coords.0 + shape.0 / 2 < shape.0,
        polygon_rasters(basis, shape)[i].weights.wf(),
        polygon_rasters(basis, shape)[i].weights.den < DEN_LIMIT,
        polygon_rasters(basis, shape)[i].basis == basis,
{
    let edges = triangle_edges(basis, shape);
    let r = polygon_rasters(basis, shape)[i];
    lemma_scan_columns(edges, shape.0, shape.0);
    assert(is_scanned(r, edges, shape.0, shape.0));
    let (c, k) = choose|c: int, k: int|
        0 <= c < shape.0 && 0 <= k < column_len(edges, shape.0, c) && r
            == #[trigger] column_raster(edges, shape.0, c, k);
    let x = c - shape.0 / 2;
    lemma_column_hull(edges, x);
    match column_hull(edges, x) {
        None => {},
        Some((lo, hi)) => {
            let a = choose|a: int| 0 <= a < edges.len() && edges[a] == lo;
            let b = choose|b: int| 0 <= b < edges.len() && edges[b] == hi;
            lemma_triangle_edges(basis, shape, a);
            lemma_triangle_edges(basis, shape, b);
            lemma_blend_wf(lo.weights, hi.weights, k, hi.coords.1 - lo.coords.1);
        },
    }
}

/// A pixel of a column of the viewport that lies between two edge rasters of that column, or
/// on one of them, is the pixel of a raster of the triangle.
pub proof fn lemma_between_edges_is_covered(
    basis: Basis,
    shape: (int, int),
    below: int,
    above: int,
    p: (int, int),
)
    requires
        0 <= p.0 + shape.0 / 2 < shape.0,
        0 <= below < triangle_edges(basis, shape).len(),
        0 <= above < triangle_edges(basis, shape).len(),
        triangle_edges(basis, shape)[below].coords.0 == p.0,
        triangle_edges(basis, shape)[above].coords.0 == p.0,
        triangle_edges(basis, shape)[below].coords.1 <= p.1 <= triangle_edges(
            basis,
            shape,
        )[above].coords.1,
    ensures
        exists|i: int|
            0 <= i < polygon_rasters(basis, shape).len() && (#[trigger] polygon_rasters(
                basis,
                shape,
            )[i]).coords == p,
{
    let edges = triangle_edges(basis, shape);
    let c = p.0 + shape.0 / 2;
    lemma_column_hull(edges, p.0);
    lemma_scan_columns(edges, shape.0, shape.0);
    match column_hull(edges, p.0) {
        None => {
            assert(edges[below].coords.0 != p.0);
        },
        Some((lo, hi)) => {
            assert(lo.coords.1 <= edges[below].coords.1);
            assert(edges[above].coords.1 <= hi.coords.1);
            let k = p.1 - lo.coords.1;
            let column = column_rasters(column_hull(edges, c - shape.0 / 2));
            assert(0 <= c < shape.0 && 0 <= k < column_len(edges, shape.0, c));
            let r = column_raster(edges, shape.0, c, k);
            assert(r == column[k]);
            assert(polygon_rasters(basis, shape).contains(r));
            let i = choose|i: int|
                0 <= i < polygon_rasters(basis, shape).len() && polygon_rasters(
                    basis,
                    shape,
                )[i] == r;
            assert(polygon_rasters(basis, shape)[i].coords == p);
        },
    }
}

/// No edge raster in a column of the viewport is left out: its pixel is the pixel of a raster
/// of the triangle.
pub proof fn lemma_edge_pixels_are_covered(basis: Basis, shape: (int, int), j: int)
    requires
        0 <= j < triangle_edges(basis, shape).len(),
        0 <= triangle_edges(basis, shape)[j].coords.0 + shape.0 / 2 < shape.0,
    ensures
        exists|i: int|
            0 <= i < polygon_rasters(basis, shape).len() && (#[trigger] polygon_rasters(
                basis,
                shape,
            )[i]).coords == triangle_edges(basis, shape)[j].coords,
{
    lemma_between_edges_is_covered(basis, shape, j, j, triangle_edges(basis, shape)[j].coords);
}

/// A raster of the triangle lies between two edge rasters of its column, or on one of them.
pub proof fn lemma_covered_is_between_edges(basis: Basis, shape: (int, int), i: int)
    requires
        0 <= i < polygon_rasters(basis, shape).len(),
    ensures
        exists|below: int, above: int|
            {
                &&& 0 <= below < triangle_edges(basis, shape).len()
                &&& 0 <= above < triangle_edges(basis, shape).len()
                &&& (#[trigger] triangle_edges(basis, shape)[below]).coords.0 == polygon_rasters(
                    basis,
                    shape,
                )[i].coords.0
                &&& (#[trigger] triangle_edges(basis, shape)[above]).coords.0 == polygon_rasters(
                    basis,
                    shape,
                )[i].coords.0
                &&& triangle_edges(basis, shape)[below].coords.1 <= polygon_rasters(
                    basis,
                    shape,
                )[i].coords.1 <= triangle_edges(basis, shape)[above].coords.1
            },
{
    let edges = triangle_edges(basis, shape);
    let r = polygon_rasters(basis, shape)[i];
    lemma_scan_columns(edges, shape.0, shape.0);
    assert(is_scanned(r, edges, shape.0, shape.0));
    let (c, k) = choose|c: int, k: int|
        0 <= c < shape.0 && 0 <= k < column_len(edges, shape.0, c) && r
            == #[trigger] column_raster(edges, shape.0, c, k);
    let x = c - shape.0 / 2;
    lemma_column_hull(edges, x);
    match column_hull(edges, x) {
        None => {},
        Some((lo, hi)) => {
            let a = choose|a: int| 0 <= a < edges.len() && edges[a] == lo;
            let b = choose|b: int| 0 <= b < edges.len() && edges[b] == hi;
            assert(edges[a].coords.0 == r.coords.0 && edges[b].coords.0 == r.coords.0
                && edges[a].coords.1 <= r.coords.1 <= edges[b].coords.1);
        },
    }
}

/// A write never lowers a stored depth, changes nothing outside the viewport, and where it
/// changes a pixel it stores the depth and the colour that were offered.
pub proof fn lemma_write(frame: FrameView, p: (int, int), depth: int, color: (u8, u8, u8), i: int)
    requires
        frame.wf(),
        0 <= i < frame.depth.len(),
    ensures
        frame.write(p, depth, color).wf(),
        frame.write(p, depth, color).shape == frame.shape,
        frame.write(p, depth, color).depth[i] >= frame.depth[i],
        frame.write(p, depth, color).depth[i] != frame.depth[i] || frame.write(
            p,
            depth,
            color,
        ).color[i] != frame.color[i] ==> {
            &&& frame.in_viewport(p)
            &&& i == frame.index_of(p)
            &&& frame.write(p, depth, color).depth[i] == depth
            &&& frame.write(p, depth, color).color[i] == color
        },
{
    if frame.wins(p, depth) {
        lemma_index_in_bounds(frame, p);
    }
}

/// In a cleared frame every pixel is black and as deep as the sentinel.
pub proof fn lemma_cleared(shape: (int, int), i: int)
    requires
        shape.0 >= 0,
        shape.1 >= 0,
        0 <= i < shape.0 * shape.1,
    ensures
        FrameView::cleared(shape).wf(),
        FrameView::cleared(shape).color[i] == (0u8, 0u8, 0u8),
        FrameView::cleared(shape).depth[i] == DEPTH_SENTINEL,
{
    assert(shape.0 * shape.1 >= 0) by (nonlinear_arith)
        requires
            shape.0 >= 0,
            shape.1 >= 0,
    ;
}

/// Every fragment comes from one of the rasters: it has that raster's pixel and weights, its
/// depth is the raster's interpolated depth, and that depth lies in the normalised range.
pub proof fn lemma_fragments_of(rs: Seq<RasterView>, i: int)
    requires
        0 <= i < fragments_of(rs).len(),
    ensures
        depth_visible(fragments_of(rs)[i].depth),
        exists|j: int| 0 <= j < rs.len() && fragments_of(rs)[i] == fragment_of(#[trigger] rs[j]),
    decreases rs.len(),
{
    if rs.len() > 0 {
        let init = rs.drop_last();
        let f = fragment_of(rs.last());
        if depth_visible(f.depth) && i == fragments_of(init).len() {
            assert(fragments_of(rs)[i] == fragment_of(rs[rs.len() - 1]));
        } else {
            lemma_fragments_of(init, i);
            let j = choose|j: int|
                0 <= j < init.len() && fragments_of(init)[i] == fragment_of(#[trigger] init[j]);
            assert(fragments_of(rs)[i] == fragment_of(rs[j]));
        }
    }
}

/// A raster whose depth lies in the normalised range becomes a fragment.
pub proof fn lemma_visible_raster_is_fragment(rs: Seq<RasterView>, j: int)
    requires
        0 <= j < rs.len(),
        depth_visible(fragment_of(rs[j]).depth),
    ensures
        fragments_of(rs).contains(fragment_of(rs[j])),
    decreases rs.len(),
{
    let init = rs.drop_last();
    if j == rs.len() - 1 {
        let all = fragments_of(rs);
        assert(all[all.len() - 1] == fragment_of(rs[j]));
    } else {
        lemma_visible_raster_is_fragment(init, j);
        let f = fragment_of(init[j]);
        let k = choose|k: int| 0 <= k < fragments_of(init).len() && fragments_of(init)[k] == f;
        assert(fragments_of(rs)[k] == f);
    }
}

/// A triangle whose three vertices have one depth is that deep at every raster.
pub proof fn lemma_flat_triangle_depth(basis: Basis, shape: (int, int), i: int)
    requires
        0 <= i < polygon_rasters(basis, shape).len(),
        basis[0].coords.2 == basis[1].coords.2,
        basis[1].coords.2 == basis[2].coords.2,
    ensures
        fragment_of(polygon_rasters(basis, shape)[i]).depth == basis[0].coords.2,
{
    lemma_polygon_raster(basis, shape, i);
    let r = polygon_rasters(basis, shape)[i];
    lemma_interpolated_depth_bounds(
        r.weights,
        basis,
        basis[0].coords.2 as int,
        basis[0].coords.2 as int,
    );
}

/// Offering fragments to a frame never lowers a stored depth, and keeps the frame well
/// formed.
pub proof fn lemma_resolve_depth(
    frame: FrameView,
    fragments: Seq<FragmentView>,
    colors: Seq<(u8, u8, u8)>,
    i: int,
)
    requires
        frame.wf(),
        0 <= i < frame.depth.len(),
    ensures
        resolve(frame, fragments, colors).wf(),
        resolve(frame, fragments, colors).shape == frame.shape,
        resolve(frame, fragments, colors).depth[i] >= frame.depth[i],
    decreases fragments.len(),
{
    if fragments.len() > 0 {
        let f = fragments.last();
        let before = resolve(frame, fragments.drop_last(), colors.drop_last());
        lemma_resolve_depth(frame, fragments.drop_last(), colors.drop_last(), i);
        lemma_write(before, f.coords, f.depth, colors.last(), i);
    }
}

/// A pixel that differs after fragments were offered to a frame is the pixel of one of the
/// fragments, and holds that fragment's depth and a colour that the sampler gives that
/// fragment.
pub proof fn lemma_resolve<F: Fn((i32, i32, i32), &Barycentric) -> (u8, u8, u8)>(
    sampler: F,
    frame: FrameView,
    fragments: Seq<FragmentView>,
    face: (i32, i32, i32),
    colors: Seq<(u8, u8, u8)>,
    i: int,
)
    requires
        frame.wf(),
        0 <= i < frame.depth.len(),
        resolved_by(sampler, frame, fragments, face, colors),
        resolve(frame, fragments, colors).depth[i] != frame.depth[i] || resolve(
            frame,
            fragments,
            colors,
        ).color[i] != frame.color[i],
    ensures
        exists|k: int|
            {
                &&& 0 <= k < fragments.len()
                &&& frame.in_viewport((#[trigger] fragments[k]).coords)
                &&& frame.index_of(fragments[k].coords) == i
                &&& resolve(frame, fragments, colors).depth[i] == fragments[k].depth
                &&& sampled(
                    sampler,
                    face,
                    fragments[k].weights,
                    resolve(frame, fragments, colors).color[i],
                )
            },
    decreases fragments.len(),
{
    if fragments.len() > 0 {
        let init = fragments.drop_last();
        let f = fragments.last();
        let before = resolve(frame, init, colors.drop_last());
        let after = resolve(frame, fragments, colors);
        lemma_resolve_depth(frame, init, colors.drop_last(), i);
        lemma_write(before, f.coords, f.depth, colors.last(), i);
        assert(after == before.write(f.coords, f.depth, colors.last()));
        if after.depth[i] != before.depth[i] || after.color[i] != before.color[i] {
            let k = fragments.len() - 1;
            assert(fragments[k] == f);
            assert(before.wins(f.coords, f.depth));
            assert(frame.in_viewport(fragments[k].coords) && frame.index_of(fragments[k].coords)
                == i);
        } else {
            lemma_resolve(sampler, frame, init, face, colors.drop_last(), i);
            let k = choose|k: int|
                {
                    &&& 0 <= k < init.len()
                    &&& frame.in_viewport((#[trigger] init[k]).coords)
                    &&& frame.index_of(init[k].coords) == i
                    &&& before.depth[i] == init[k].depth
                    &&& sampled(sampler, face, init[k].weights, before.color[i])
                };
            assert(fragments[k] == init[k]);
        }
    }
}

/// Drawing faces never lowers a stored depth, and keeps the frame well formed.
pub proof fn lemma_draw_faces_depth(
    frame: FrameView,
    vertices: Seq<Vertex>,
    faces: Seq<(i32, i32, i32)>,
    colors: Seq<Seq<(u8, u8, u8)>>,
    i: int,
)
    requires
        frame.wf(),
        0 <= i < frame.depth.len(),
    ensures
        draw_faces(frame, vertices, faces, colors).wf(),
        draw_faces(frame, vertices, faces, colors).shape == frame.shape,
        draw_faces(frame, vertices, faces, colors).depth[i] >= frame.depth[i],
    decreases faces.len(),
{
    if faces.len() > 0 {
        lemma_draw_faces_depth(frame, vertices, faces.drop_last(), colors.drop_last(), i);
        let before = draw_faces(frame, vertices, faces.drop_last(), colors.drop_last());
        lemma_resolve_depth(
            before,
            face_fragments(vertices, faces.last(), before.shape),
            colors.last(),
            i,
        );
    }
}

/// A pixel that differs after one face was drawn lies in the bounding box of the face's
/// projected vertices, its depth lies in the normalised range, and its colour is one that the
/// sampler gives a point of the face.
pub proof fn lemma_face_stays_in_box<F: Fn((i32, i32, i32), &Barycentric) -> (u8, u8, u8)>(
    sampler: F,
    frame: FrameView,
    vertices: Seq<Vertex>,
    face: (i32, i32, i32),
    colors: Seq<Seq<(u8, u8, u8)>>,
    p: (int, int),
)
    requires
        frame.wf(),
        frame.in_viewport(p),
        drawn_by(sampler, frame, vertices, seq![face], colors),
        draw_faces(frame, vertices, seq![face], colors).depth[frame.index_of(p)]
            != frame.depth[frame.index_of(p)] || draw_faces(
            frame,
            vertices,
            seq![face],
            colors,
        ).color[frame.index_of(p)] != frame.color[frame.index_of(p)],
    ensures
        in_projected_box(p, face_basis(vertices, face), frame.shape),
        depth_visible(draw_faces(frame, vertices, seq![face], colors).depth[frame.index_of(p)]),
        exists|weights: Weights|
            weights.wf() && #[trigger] sampled(
                sampler,
                face,
                weights,
                draw_faces(frame, vertices, seq![face], colors).color[frame.index_of(p)],
            ),
{
    let faces = seq![face];
    assert(faces.drop_last() =~= Seq::<(i32, i32, i32)>::empty());
    assert(faces.last() == face);
    assert(draw_faces(frame, vertices, faces.drop_last(), colors.drop_last()) == frame);
    let basis = face_basis(vertices, face);
    let rasters = polygon_rasters(basis, frame.shape);
    let fragments = face_fragments(vertices, face, frame.shape);
    let after = resolve(frame, fragments, colors.last());
    assert(draw_faces(frame, vertices, faces, colors) == after);
    let i = frame.index_of(p);
    lemma_index_in_bounds(frame, p);
    lemma_resolve(sampler, frame, fragments, face, colors.last(), i);
    let k = choose|k: int|
        {
            &&& 0 <= k < fragments.len()
            &&& frame.in_viewport((#[trigger] fragments[k]).coords)
            &&& frame.index_of(fragments[k].coords) == i
            &&& after.depth[i] == fragments[k].depth
            &&& sampled(sampler, face, fragments[k].weights, after.color[i])
        };
    lemma_index_injective(frame, p, fragments[k].coords);
    lemma_fragments_of(rasters, k);
    let j = choose|j: int|
        0 <= j < rasters.len() && fragments_of(rasters)[k] == fragment_of(#[trigger] rasters[j]);
    lemma_polygon_raster(basis, frame.shape, j);
    assert(rasters[j].weights.wf() && sampled(sampler, face, rasters[j].weights, after.color[i]));
}

/// The pixel `p` lies strictly inside the triangle `a`, `b`, `c`: the three areas that it
/// spans with the sides are all positive or all negative.
pub open spec fn strictly_inside(p: (int, int), a: (int, int), b: (int, int), c: (int, int)) -> bool {
    let s1 = oriented_area_int(a, p, b);
    let s2 = oriented_area_int(b, p, c);
    let s3 = oriented_area_int(c, p, a);
    (s1 > 0 && s2 > 0 && s3 > 0) || (s1 < 0 && s2 < 0 && s3 < 0)
}

/// The area that a point spans with a side tells the side of the line that it lies on.
pub proof fn lemma_area_is_cross(a: (int, int), p: (int, int), b: (int, int))
    ensures
        oriented_area_int(a, p, b) == -cross(a, b, p),
{
    assert(oriented_area_int(a, p, b) == -cross(a, b, p)) by (nonlinear_arith)
        requires
            oriented_area_int(a, p, b) == (p.0 - a.0) * (b.1 - p.1) - (b.0 - p.0) * (p.1 - a.1),
            cross(a, b, p) == (b.0 - a.0) * (p.1 - a.1) - (b.1 - a.1) * (p.0 - a.0),
    ;
}

/// The two vertices that edge number `e` of a triangle joins, in the order in which the edge
/// is discretised.
pub open spec fn edge_ends(e: int) -> (int, int) {
    if e == 0 {
        (0, 1)
    } else if e == 1 {
        (1, 2)
    } else {
        (0, 2)
    }
}

/// Which side of edge number `e`, taken from its left end to its right end, the pixel `p`
/// lies on: positive above the edge, negative below it, zero on it.
pub open spec fn edge_side(basis: Basis, shape: (int, int), e: int, p: (int, int)) -> int {
    let u = projected(basis, edge_ends(e).0, shape);
    let v = projected(basis, edge_ends(e).1, shape);
    if u.0 < v.0 {
        cross(u, v, p)
    } else {
        cross(v, u, p)
    }
}

/// Every pixel of an edge of a triangle is the pixel of one of its edge rasters.
pub proof fn lemma_edge_pixel_is_raster(basis: Basis, shape: (int, int), e: int, i: int) -> (j: int)
    requires
        0 <= e < 3,
        0 <= i < line_spec(
            projected(basis, edge_ends(e).0, shape),
            projected(basis, edge_ends(e).1, shape),
        ).len(),
    ensures
        0 <= j < triangle_edges(basis, shape).len(),
        triangle_edges(basis, shape)[j].coords == line_spec(
            projected(basis, edge_ends(e).0, shape),
            projected(basis, edge_ends(e).1, shape),
        )[i],
{
    let ab = edge_rasters(basis, (0, 1), shape);
    let bc = edge_rasters(basis, (1, 2), shape);
    let ac = edge_rasters(basis, (0, 2), shape);
    if e == 0 {
        assert(triangle_edges(basis, shape)[i] == ab[i]);
        i
    } else if e == 1 {
        assert(triangle_edges(basis, shape)[ab.len() + i] == bc[i]);
        ab.len() + i
    } else {
        assert(triangle_edges(basis, shape)[ab.len() + bc.len() + i] == ac[i]);
        ab.len() + bc.len() + i
    }
}

/// An edge of a triangle that passes the column of the pixel `p` strictly between its ends
/// has an edge raster in that column: at or above `p` where `p` is not above the edge, at or
/// below `p` where `p` is above it.
pub proof fn lemma_edge_reaches(basis: Basis, shape: (int, int), e: int, p: (int, int)) -> (j: int)
    requires
        0 <= e < 3,
        projected(basis, edge_ends(e).0, shape).0 < p.0 < projected(
            basis,
            edge_ends(e).1,
            shape,
        ).0 || projected(basis, edge_ends(e).1, shape).0 < p.0 < projected(
            basis,
            edge_ends(e).0,
            shape,
        ).0,
    ensures
        0 <= j < triangle_edges(basis, shape).len(),
        triangle_edges(basis, shape)[j].coords.0 == p.0,
        edge_side(basis, shape, e, p) <= 0 ==> triangle_edges(basis, shape)[j].coords.1 >= p.1,
        edge_side(basis, shape, e, p) > 0 ==> triangle_edges(basis, shape)[j].coords.1 <= p.1,
{
    let u = projected(basis, edge_ends(e).0, shape);
    let v = projected(basis, edge_ends(e).1, shape);
    lemma_line_symmetric(u, v);
    if u.0 < v.0 {
        let i = if cross(u, v, p) <= 0 {
            lemma_line_reaches_above(u, v, p)
        } else {
            lemma_line_reaches_below(u, v, p)
        };
        lemma_edge_pixel_is_raster(basis, shape, e, i)
    } else {
        let i = if cross(v, u, p) <= 0 {
            lemma_line_reaches_above(v, u, p)
        } else {
            lemma_line_reaches_below(v, u, p)
        };
        lemma_edge_pixel_is_raster(basis, shape, e, i)
    }
}

/// A pixel that lies strictly inside the projected triangle, in a column of the viewport
/// that holds none of the three projected vertices, is the pixel of a raster of the
/// triangle.
pub proof fn lemma_interior_is_covered(basis: Basis, shape: (int, int), p: (int, int))
    requires
        0 <= p.0 + shape.0 / 2 < shape.0,
        strictly_inside(
            p,
            projected(basis, 0, shape),
            projected(basis, 1, shape),
            projected(basis, 2, shape),
        ),
        p.0 != projected(basis, 0, shape).0,
        p.0 != projected(basis, 1, shape).0,
        p.0 != projected(basis, 2, shape).0,
    ensures
        exists|i: int|
            0 <= i < polygon_rasters(basis, shape).len() && (#[trigger] polygon_rasters(
                basis,
                shape,
            )[i]).coords == p,
{
    let a = projected(basis, 0, shape);
    let b = projected(basis, 1, shape);
    let c = projected(basis, 2, shape);
    lemma_area_is_cross(a, p, b);
    lemma_area_is_cross(b, p, c);
    lemma_area_is_cross(c, p, a);
    lemma_cross_antisymmetric(a, b, p);
    lemma_cross_antisymmetric(b, c, p);
    lemma_cross_antisymmetric(c, a, p);
    lemma_cross_antisymmetric(a, c, p);
    let passes_ab = (a.0 < p.0 < b.0) || (b.0 < p.0 < a.0);
    let passes_bc = (b.0 < p.0 < c.0) || (c.0 < p.0 < b.0);
    let passes_ac = (a.0 < p.0 < c.0) || (c.0 < p.0 < a.0);
    if !passes_ab && !passes_bc && !passes_ac {
        lemma_no_area_beside_the_triangle(a, b, c, p);
    }
    let edges = triangle_edges(basis, shape);
    if passes_ab && passes_bc {
        let j0 = lemma_edge_reaches(basis, shape, 0, p);
        let j1 = lemma_edge_reaches(basis, shape, 1, p);
        if edge_side(basis, shape, 0, p) > 0 {
            lemma_between_edges_is_covered(basis, shape, j0, j1, p);
        } else {
            lemma_between_edges_is_covered(basis, shape, j1, j0, p);
        }
    } else if passes_ab && passes_ac {
        let j0 = lemma_edge_reaches(basis, shape, 0, p);
        let j2 = lemma_edge_reaches(basis, shape, 2, p);
        if edge_side(basis, shape, 0, p) > 0 {
            lemma_between_edges_is_covered(basis, shape, j0, j2, p);
        } else {
            lemma_between_edges_is_covered(basis, shape, j2, j0, p);
        }
    } else {
        let j1 = lemma_edge_reaches(basis, shape, 1, p);
        let j2 = lemma_edge_reaches(basis, shape, 2, p);
        if edge_side(basis, shape, 1, p) > 0 {
            lemma_between_edges_is_covered(basis, shape, j1, j2, p);
        } else {
            lemma_between_edges_is_covered(basis, shape, j2, j1, p);
        }
    }
}

/// The side of a line that a point lies on, in coordinates that start at the point.
proof fn lemma_cross_from_point(a: (int, int), b: (int, int), p: (int, int))
    ensures
        cross(a, b, p) == (a.0 - p.0) * (b.1 - p.1) - (a.1 - p.1) * (b.0 - p.0),
{
    assert(cross(a, b, p) == (a.0 - p.0) * (b.1 - p.1) - (a.1 - p.1) * (b.0 - p.0))
        by (nonlinear_arith)
        requires
            cross(a, b, p) == (b.0 - a.0) * (p.1 - a.1) - (b.1 - a.1) * (p.0 - a.0),
    ;
}

/// A determinant with a repeated row is zero.
proof fn lemma_repeated_row(ax: int, ay: int, bx: int, by: int, cx: int, cy: int)
    by (nonlinear_arith)
    ensures
        cx * (ax * by - ay * bx) + ax * (bx * cy - by * cx) + bx * (cx * ay - cy * ax) == 0,
{
}

/// A point in a column that lies to one side of all three vertices of a triangle does not
/// lie strictly inside it.
proof fn lemma_no_area_beside_the_triangle(
    a: (int, int),
    b: (int, int),
    c: (int, int),
    p: (int, int),
)
    requires
        (p.0 < a.0 && p.0 < b.0 && p.0 < c.0) || (p.0 > a.0 && p.0 > b.0 && p.0 > c.0),
    ensures
        !strictly_inside(p, a, b, c),
{
    lemma_area_is_cross(a, p, b);
    lemma_area_is_cross(b, p, c);
    lemma_area_is_cross(c, p, a);
    let s1 = cross(a, b, p);
    let s2 = cross(b, c, p);
    let s3 = cross(c, a, p);
    lemma_cross_from_point(a, b, p);
    lemma_cross_from_point(b, c, p);
    lemma_cross_from_point(c, a, p);
    lemma_repeated_row(a.0 - p.0, a.1 - p.1, b.0 - p.0, b.1 - p.1, c.0 - p.0, c.1 - p.1);
    assert(!((s1 > 0 && s2 > 0 && s3 > 0) || (s1 < 0 && s2 < 0 && s3 < 0))) by (nonlinear_arith)
        requires
            (c.0 - p.0) * s1 + (a.0 - p.0) * s2 + (b.0 - p.0) * s3 == 0,
            (p.0 < a.0 && p.0 < b.0 && p.0 < c.0) || (p.0 > a.0 && p.0 > b.0 && p.0 > c.0),
    ;
}

} // verus!
