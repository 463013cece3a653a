use julia3d::fixed::{rasterize_dot, ONE};
use julia3d::framebuffer::{Julia3D, DEPTH_SENTINEL};
use julia3d::interpolation::{linear_interpolation, DomainError, SegmentWeights};
use julia3d::raster::{Barycentric, Basis, Raster, Vertex};
use std::cell::Cell;

const RED: (u8, u8, u8) = (255, 0, 0);
const GREEN: (u8, u8, u8) = (0, 255, 0);
const BLACK: (u8, u8, u8) = (0, 0, 0);

fn flat(color: (u8, u8, u8)) -> impl Fn((i32, i32, i32), &Barycentric) -> (u8, u8, u8) {
    move |_face, _weights| color
}

fn vertex(x: i32, y: i32, z: i32) -> Vertex {
    Vertex { coords: (x, y, z) }
}

fn upright_triangle(z: i32) -> Basis {
    [vertex(-ONE, -ONE, z), vertex(ONE, -ONE, z), vertex(0, ONE, z)]
}

fn upright_pixels() -> Vec<(i32, i32)> {
    vec![
        (-2, -2),
        (-2, -1),
        (-1, -2),
        (-1, -1),
        (-1, 0),
        (-1, 1),
        (0, -2),
        (1, -2),
        (1, -1),
        (1, 0),
        (1, 1),
    ]
}

fn assert_frame(julia: &Julia3D, covered: &[(i32, i32)], color: (u8, u8, u8), depth: i32) {
    let (w, h) = julia.shape();
    for y in -(h / 2)..(h - h / 2) {
        for x in -(w / 2)..(w - w / 2) {
            if covered.contains(&(x, y)) {
                assert_eq!(julia.color_at(x, y), Some(color), "colour at {:?}", (x, y));
                assert_eq!(julia.depth_at(x, y), Some(depth), "depth at {:?}", (x, y));
            } else {
                assert_eq!(julia.color_at(x, y), Some(BLACK), "colour at {:?}", (x, y));
                assert_eq!(julia.depth_at(x, y), Some(DEPTH_SENTINEL), "depth at {:?}", (x, y));
            }
        }
    }
}

#[test]
fn rasterize_dot_scales_by_half_the_extent() {
    assert_eq!(rasterize_dot((ONE, -ONE), (4, 4)), (2, -2));
    assert_eq!(rasterize_dot((0, ONE), (4, 4)), (0, 2));
    assert_eq!(rasterize_dot((ONE, ONE), (512, 512)), (256, 256));
    assert_eq!(rasterize_dot((-ONE, 21845), (512, 512)), (-256, 85));
    assert_eq!(rasterize_dot((3 * ONE, ONE / 2), (4, 4)), (6, 1));
}

#[test]
fn rasterize_dot_rounds_to_the_nearest_pixel() {
    assert_eq!(rasterize_dot((32768, -32768), (5, 5)), (1, -1));
    assert_eq!(rasterize_dot((16384, 0), (2, 2)), (0, 0));
}

#[test]
fn rasterize_dot_rounds_a_tie_away_from_zero() {
    assert_eq!(rasterize_dot((ONE, -ONE), (1, 1)), (1, -1));
    assert_eq!(rasterize_dot((ONE, -ONE), (3, 3)), (2, -2));
}

#[test]
fn rasterize_dot_saturates() {
    assert_eq!(rasterize_dot((i32::MAX, i32::MIN), (i32::MAX, i32::MAX)), (i32::MAX, i32::MIN));
}

#[test]
fn linear_interpolation_measures_along_x() {
    assert_eq!(
        linear_interpolation((1, 5), (0, 0), (4, 0)),
        Ok(SegmentWeights { k1: 3, k2: 1, den: 4 })
    );
    assert_eq!(
        linear_interpolation((-3, 0), (-2, 7), (-6, 1)),
        Ok(SegmentWeights { k1: 3, k2: 1, den: 4 })
    );
}

#[test]
fn linear_interpolation_measures_a_vertical_segment_along_y() {
    assert_eq!(
        linear_interpolation((0, 3), (0, 0), (0, 12)),
        Ok(SegmentWeights { k1: 9, k2: 3, den: 12 })
    );
}

#[test]
fn linear_interpolation_at_the_ends() {
    assert_eq!(
        linear_interpolation((0, 0), (0, 0), (4, 2)),
        Ok(SegmentWeights { k1: 4, k2: 0, den: 4 })
    );
    assert_eq!(
        linear_interpolation((4, 2), (0, 0), (4, 2)),
        Ok(SegmentWeights { k1: 0, k2: 4, den: 4 })
    );
}

#[test]
fn linear_interpolation_beyond_the_segment() {
    assert_eq!(
        linear_interpolation((6, 0), (0, 0), (4, 0)),
        Ok(SegmentWeights { k1: -2, k2: 6, den: 4 })
    );
}

#[test]
fn linear_interpolation_weights_add_up_to_one() {
    for q in -10..10 {
        let w = linear_interpolation((q, 3), (-4, 0), (9, 1)).unwrap();
        assert_eq!(w.k1 + w.k2, w.den);
        assert!(w.den > 0);
    }
}

#[test]
fn linear_interpolation_fails_on_a_segment_of_no_length() {
    assert_eq!(linear_interpolation((1, 1), (3, 3), (3, 3)), Err(DomainError::ZeroLengthSegment));
    assert_eq!(linear_interpolation((3, 3), (3, 3), (3, 3)), Err(DomainError::ZeroLengthSegment));
}

#[test]
fn linear_interpolation_over_the_whole_range() {
    assert_eq!(
        linear_interpolation((0, 0), (i32::MIN, 0), (i32::MAX, 0)),
        Ok(SegmentWeights { k1: 2147483647, k2: 2147483648, den: 4294967295 })
    );
}

#[test]
fn new_frame_is_cleared() {
    let julia = Julia3D::new(4, 4);
    assert_eq!(julia.shape(), (4, 4));
    assert_eq!(julia.buff_ptr().len(), 16);
    assert!(julia.buff_ptr().iter().all(|c| *c == BLACK));
    assert_frame(&julia, &[], BLACK, DEPTH_SENTINEL);
    assert_eq!(DEPTH_SENTINEL, -1000 * ONE);
}

#[test]
fn empty_frame_takes_no_pixel() {
    let mut julia = Julia3D::new(0, 0);
    assert_eq!(julia.buff_ptr().len(), 0);
    assert!(!julia.test_and_write(0, 0, 0, RED));
    assert_eq!(julia.color_at(0, 0), None);
    julia.render(&[vertex(0, 0, 0)], &[(0, 0, 0)], &flat(RED));
    julia.clear();
    assert_eq!(julia.buff_ptr().len(), 0);
}

#[test]
fn buff_offset_counts_rows_from_the_centre() {
    let julia = Julia3D::new(4, 4);
    assert_eq!(julia.buff_offset((0, 0)), Some(10));
    assert_eq!(julia.buff_offset((-2, -2)), Some(0));
    assert_eq!(julia.buff_offset((1, 1)), Some(15));
    assert_eq!(julia.buff_offset((1, -2)), Some(3));
    assert_eq!(julia.buff_offset((2, 0)), None);
    assert_eq!(julia.buff_offset((-3, 0)), None);
    assert_eq!(julia.buff_offset((0, 2)), None);
    assert_eq!(julia.buff_offset((0, -3)), None);
    assert_eq!(julia.buff_offset((i32::MAX, i32::MIN)), None);
}

#[test]
fn buff_offset_in_a_frame_of_odd_size() {
    let julia = Julia3D::new(5, 3);
    assert_eq!(julia.buff_offset((-2, -1)), Some(0));
    assert_eq!(julia.buff_offset((2, 1)), Some(14));
    assert_eq!(julia.buff_offset((3, 0)), None);
    assert_eq!(julia.buff_offset((0, 2)), None);
    assert_eq!(julia.buff_offset((-3, 0)), None);
}

#[test]
fn test_and_write_takes_a_strictly_greater_depth() {
    let mut julia = Julia3D::new(4, 4);
    assert!(julia.test_and_write(0, 0, 0, (1, 2, 3)));
    assert_eq!(julia.color_at(0, 0), Some((1, 2, 3)));
    assert_eq!(julia.depth_at(0, 0), Some(0));
    assert_eq!(julia.buff_ptr()[10], (1, 2, 3));
    assert!(!julia.test_and_write(0, 0, 0, (9, 9, 9)));
    assert!(!julia.test_and_write(0, 0, -5, (9, 9, 9)));
    assert_eq!(julia.color_at(0, 0), Some((1, 2, 3)));
    assert_eq!(julia.depth_at(0, 0), Some(0));
    assert!(julia.test_and_write(0, 0, 1, (4, 5, 6)));
    assert_eq!(julia.color_at(0, 0), Some((4, 5, 6)));
    assert_eq!(julia.depth_at(0, 0), Some(1));
    assert_frame(&julia, &[(0, 0)], (4, 5, 6), 1);
}

#[test]
fn test_and_write_never_lowers_a_depth() {
    let mut julia = Julia3D::new(3, 3);
    let depths = [5, -7, 5, 9, 2, 9, 100, -100, 99];
    let mut stored = DEPTH_SENTINEL;
    for (i, depth) in depths.iter().enumerate() {
        let written = julia.test_and_write(1, -1, *depth, (i as u8, 0, 0));
        assert_eq!(written, *depth > stored);
        let now = julia.depth_at(1, -1).unwrap();
        assert!(now >= stored);
        if written {
            assert_eq!(now, *depth);
            assert_eq!(julia.color_at(1, -1), Some((i as u8, 0, 0)));
        }
        stored = now;
    }
    assert_eq!(stored, 100);
}

#[test]
fn test_and_write_discards_what_lies_outside() {
    let mut julia = Julia3D::new(4, 4);
    for (x, y) in [(2, 0), (-3, 0), (0, 2), (0, -3), (100, 100), (i32::MIN, i32::MAX)] {
        assert!(!julia.test_and_write(x, y, ONE, RED));
        assert_eq!(julia.color_at(x, y), None);
        assert_eq!(julia.depth_at(x, y), None);
    }
    assert_frame(&julia, &[], BLACK, DEPTH_SENTINEL);
}

#[test]
fn test_and_write_below_the_sentinel_is_lost() {
    let mut julia = Julia3D::new(2, 2);
    assert!(!julia.test_and_write(0, 0, DEPTH_SENTINEL, RED));
    assert!(!julia.test_and_write(0, 0, DEPTH_SENTINEL - 1, RED));
    assert!(julia.test_and_write(0, 0, DEPTH_SENTINEL + 1, RED));
}

#[test]
fn clear_restores_the_cleared_frame() {
    let mut julia = Julia3D::new(4, 4);
    julia.test_and_write(0, 0, 7, RED);
    julia.test_and_write(-2, 1, -7, GREEN);
    julia.clear();
    assert_eq!(julia.shape(), (4, 4));
    assert_eq!(julia.buff_ptr().len(), 16);
    assert_frame(&julia, &[], BLACK, DEPTH_SENTINEL);
    assert!(julia.test_and_write(0, 0, -ONE, GREEN));
}

#[test]
fn rasterize_line_puts_the_weights_on_the_lanes_of_the_edge() {
    let julia = Julia3D::new(4, 4);
    let basis = upright_triangle(0);
    let edge = julia.rasterize_line(&basis, (1, 2));
    let seen: Vec<((i32, i32), [u128; 3], u128)> =
        edge.iter().map(|r| (r.window_coords, r.barycentric.num, r.barycentric.den)).collect();
    assert_eq!(
        seen,
        vec![
            ((2, -2), [0, 2, 0], 2),
            ((2, -1), [0, 2, 0], 2),
            ((1, 0), [0, 1, 1], 2),
            ((1, 1), [0, 1, 1], 2),
        ]
    );
    for r in &edge {
        assert_eq!(*r.basis, basis);
    }
    let base = julia.rasterize_line(&basis, (0, 1));
    let seen: Vec<((i32, i32), [u128; 3], u128)> =
        base.iter().map(|r| (r.window_coords, r.barycentric.num, r.barycentric.den)).collect();
    assert_eq!(
        seen,
        vec![
            ((-2, -2), [4, 0, 0], 4),
            ((-1, -2), [3, 1, 0], 4),
            ((0, -2), [2, 2, 0], 4),
            ((1, -2), [1, 3, 0], 4),
        ]
    );
}

#[test]
fn rasterize_line_between_one_vertex_and_itself_is_empty() {
    let julia = Julia3D::new(4, 4);
    let basis = upright_triangle(0);
    assert!(julia.rasterize_line(&basis, (1, 1)).is_empty());
}

#[test]
fn rasterize_polygon_fills_every_column_between_its_edges() {
    let julia = Julia3D::new(4, 4);
    let basis = upright_triangle(0);
    let rasters = julia.rasterize_polygon(&basis);
    let seen: Vec<((i32, i32), [u128; 3], u128)> =
        rasters.iter().map(|r| (r.window_coords, r.barycentric.num, r.barycentric.den)).collect();
    assert_eq!(
        seen,
        vec![
            ((-2, -2), [8, 0, 0], 8),
            ((-2, -1), [8, 0, 0], 8),
            ((-1, -2), [18, 6, 0], 24),
            ((-1, -1), [16, 4, 4], 24),
            ((-1, 0), [14, 2, 8], 24),
            ((-1, 1), [12, 0, 12], 24),
            ((0, -2), [2, 2, 0], 4),
            ((1, -2), [6, 18, 0], 24),
            ((1, -1), [4, 16, 4], 24),
            ((1, 0), [2, 14, 8], 24),
            ((1, 1), [0, 12, 12], 24),
        ]
    );
}

fn check_rasters(julia: &Julia3D, basis: &Basis) {
    let (w, _) = julia.shape();
    let corners: Vec<(i32, i32)> =
        basis.iter().map(|v| rasterize_dot((v.coords.0, v.coords.1), julia.shape())).collect();
    let min_x = corners.iter().map(|p| p.0).min().unwrap();
    let max_x = corners.iter().map(|p| p.0).max().unwrap();
    let min_y = corners.iter().map(|p| p.1).min().unwrap();
    let max_y = corners.iter().map(|p| p.1).max().unwrap();
    let rasters = julia.rasterize_polygon(basis);
    let mut edges = julia.rasterize_line(basis, (0, 1));
    edges.extend(julia.rasterize_line(basis, (1, 2)));
    edges.extend(julia.rasterize_line(basis, (0, 2)));
    for r in &rasters {
        let (x, y) = r.window_coords;
        assert!(min_x <= x && x <= max_x && min_y <= y && y <= max_y);
        assert!(-(w / 2) <= x && x < w - w / 2);
        let b = r.barycentric;
        assert!(b.den > 0);
        assert_eq!(b.num[0] + b.num[1] + b.num[2], b.den);
        assert!(edges.iter().any(|e| e.window_coords.0 == x && e.window_coords.1 <= y));
        assert!(edges.iter().any(|e| e.window_coords.0 == x && e.window_coords.1 >= y));
    }
    for e in &edges {
        let (x, _) = e.window_coords;
        if -(w / 2) <= x && x < w - w / 2 {
            assert!(rasters.iter().any(|r| r.window_coords == e.window_coords));
        }
    }
    for (i, r) in rasters.iter().enumerate() {
        assert!(rasters[..i].iter().all(|s| s.window_coords != r.window_coords));
    }
}

#[test]
fn rasterize_polygon_keeps_its_promises_on_many_triangles() {
    let julia = Julia3D::new(16, 12);
    let coords = [-ONE, -ONE / 2, -ONE / 3, 0, ONE / 5, ONE / 2, ONE, 3 * ONE / 2];
    for (i, ax) in coords.iter().enumerate() {
        for (j, by) in coords.iter().enumerate() {
            let basis = [
                vertex(*ax, coords[(i + 3) % 8], 0),
                vertex(coords[(j + 5) % 8], *by, 0),
                vertex(coords[(i + j) % 8], coords[(i * j + 1) % 8], 0),
            ];
            check_rasters(&julia, &basis);
        }
    }
}

#[test]
fn rasterize_polygon_of_one_point_is_empty() {
    let julia = Julia3D::new(8, 8);
    let basis = [vertex(100, 100, 0), vertex(100, 100, 0), vertex(100, 100, 0)];
    assert!(julia.rasterize_polygon(&basis).is_empty());
}

#[test]
fn rasterize_polygon_of_a_single_pixel_emits_one_raster() {
    let julia = Julia3D::new(8, 8);
    let basis = [vertex(0, 0, 0), vertex(ONE / 4, 0, 0), vertex(ONE / 4, 0, 0)];
    let rasters = julia.rasterize_polygon(&basis);
    assert_eq!(rasters.len(), 1);
    assert_eq!(rasters[0].window_coords, (0, 0));
    assert_eq!(rasters[0].barycentric, Barycentric { num: [1, 0, 0], den: 1 });
}

#[test]
fn rasterize_polygon_of_collinear_vertices_is_thin() {
    let julia = Julia3D::new(8, 8);
    let basis = [vertex(-ONE, 0, 0), vertex(0, 0, 0), vertex(ONE / 2, 0, 0)];
    let pixels: Vec<(i32, i32)> =
        julia.rasterize_polygon(&basis).iter().map(|r| r.window_coords).collect();
    assert_eq!(pixels, vec![(-4, 0), (-3, 0), (-2, 0), (-1, 0), (0, 0), (1, 0)]);
}

#[test]
fn rasterize_polygon_leaves_columns_outside_the_viewport_out() {
    let julia = Julia3D::new(4, 4);
    let basis = [vertex(-ONE, -ONE, 0), vertex(3 * ONE, -ONE, 0), vertex(ONE, ONE / 2, 0)];
    let seen: Vec<((i32, i32), [u128; 3], u128)> = julia
        .rasterize_polygon(&basis)
        .iter()
        .map(|r| (r.window_coords, r.barycentric.num, r.barycentric.den))
        .collect();
    assert_eq!(
        seen,
        vec![
            ((-2, -2), [8, 0, 0], 8),
            ((-1, -2), [28, 4, 0], 32),
            ((-1, -1), [24, 0, 8], 32),
            ((0, -2), [24, 8, 0], 32),
            ((0, -1), [16, 0, 16], 32),
            ((1, -2), [40, 24, 0], 64),
            ((1, -1), [28, 12, 24], 64),
            ((1, 0), [16, 0, 48], 64),
        ]
    );
}

#[test]
fn fragment_interpolates_the_depth() {
    let julia = Julia3D::new(4, 4);
    let basis = [vertex(-ONE, -ONE, 0), vertex(ONE, -ONE, 24), vertex(0, ONE, 48)];
    let fragments = julia.fragment(julia.rasterize_polygon(&basis));
    let seen: Vec<((i32, i32), i32)> =
        fragments.iter().map(|f| (f.window_coords, f.depth)).collect();
    assert_eq!(
        seen,
        vec![
            ((-2, -2), 0),
            ((-2, -1), 0),
            ((-1, -2), 6),
            ((-1, -1), 12),
            ((-1, 0), 18),
            ((-1, 1), 24),
            ((0, -2), 12),
            ((1, -2), 18),
            ((1, -1), 24),
            ((1, 0), 30),
            ((1, 1), 36),
        ]
    );
    assert_eq!(fragments[3].barycentric, Barycentric { num: [16, 4, 4], den: 24 });
}

#[test]
fn fragment_rounds_the_depth_down() {
    let julia = Julia3D::new(4, 4);
    let basis = [vertex(-ONE, -ONE, -7), vertex(ONE, -ONE, 0), vertex(0, ONE, 0)];
    let depths: Vec<i32> =
        julia.fragment(julia.rasterize_polygon(&basis)).iter().map(|f| f.depth).collect();
    assert_eq!(depths, vec![-7, -7, -6, -5, -5, -4, -4, -2, -2, -1, 0]);
}

#[test]
fn fragment_drops_what_lies_outside_the_depth_range() {
    let julia = Julia3D::new(4, 4);
    let basis = [vertex(-ONE, -ONE, -ONE), vertex(ONE, -ONE, 3 * ONE), vertex(0, ONE, -ONE)];
    let rasters = julia.rasterize_polygon(&basis);
    assert_eq!(rasters.len(), 11);
    let seen: Vec<((i32, i32), i32)> =
        julia.fragment(rasters).iter().map(|f| (f.window_coords, f.depth)).collect();
    assert_eq!(
        seen,
        vec![
            ((-2, -2), -65536),
            ((-2, -1), -65536),
            ((-1, -2), 0),
            ((-1, -1), -21846),
            ((-1, 0), -43691),
            ((-1, 1), -65536),
            ((0, -2), 65536),
            ((1, 1), 65536),
        ]
    );
}

#[test]
fn fragment_keeps_both_ends_of_the_depth_range() {
    let julia = Julia3D::new(4, 4);
    assert_eq!(julia.fragment(julia.rasterize_polygon(&upright_triangle(ONE))).len(), 11);
    assert_eq!(julia.fragment(julia.rasterize_polygon(&upright_triangle(-ONE))).len(), 11);
    assert_eq!(julia.fragment(julia.rasterize_polygon(&upright_triangle(ONE + 1))).len(), 0);
    assert_eq!(julia.fragment(julia.rasterize_polygon(&upright_triangle(-ONE - 1))).len(), 0);
}

#[test]
fn fragment_takes_the_depth_from_the_basis_of_each_raster() {
    let julia = Julia3D::new(4, 4);
    let near = upright_triangle(5);
    let far = upright_triangle(-5);
    let weights = Barycentric { num: [1, 1, 2], den: 4 };
    let rasters = vec![
        Raster { window_coords: (0, 0), barycentric: weights, basis: &near },
        Raster { window_coords: (1, 0), barycentric: weights, basis: &far },
    ];
    let depths: Vec<i32> = julia.fragment(rasters).iter().map(|f| f.depth).collect();
    assert_eq!(depths, vec![5, -5]);
}

#[test]
fn render_draws_a_flat_red_triangle_and_clear_removes_it() {
    let mut julia = Julia3D::new(4, 4);
    let vertices = upright_triangle(0);
    julia.render(&vertices, &[(0, 1, 2)], &flat(RED));
    assert_frame(&julia, &upright_pixels(), RED, 0);
    for interior in [(-1, -1), (1, -1)] {
        assert_eq!(julia.color_at(interior.0, interior.1), Some(RED));
        assert_eq!(julia.depth_at(interior.0, interior.1), Some(0));
    }
    julia.clear();
    assert_frame(&julia, &[], BLACK, DEPTH_SENTINEL);
    assert!(julia.buff_ptr().iter().all(|c| *c == BLACK));
}

#[test]
fn render_keeps_the_deeper_triangle_drawn_first() {
    let mut julia = Julia3D::new(4, 4);
    julia.render(&upright_triangle(ONE / 2), &[(0, 1, 2)], &flat(RED));
    julia.render(&upright_triangle(6554), &[(0, 1, 2)], &flat(GREEN));
    assert_frame(&julia, &upright_pixels(), RED, ONE / 2);
}

#[test]
fn render_lets_the_deeper_triangle_drawn_later_win() {
    let mut julia = Julia3D::new(4, 4);
    julia.render(&upright_triangle(6554), &[(0, 1, 2)], &flat(GREEN));
    assert_frame(&julia, &upright_pixels(), GREEN, 6554);
    julia.render(&upright_triangle(ONE / 2), &[(0, 1, 2)], &flat(RED));
    assert_frame(&julia, &upright_pixels(), RED, ONE / 2);
}

#[test]
fn render_keeps_the_first_of_two_equally_deep_triangles() {
    let mut julia = Julia3D::new(4, 4);
    julia.render(&upright_triangle(7), &[(0, 1, 2)], &flat(GREEN));
    julia.render(&upright_triangle(7), &[(0, 1, 2)], &flat(RED));
    assert_frame(&julia, &upright_pixels(), GREEN, 7);
}

#[test]
fn render_draws_the_faces_in_their_order() {
    let mut julia = Julia3D::new(4, 4);
    let mut vertices = upright_triangle(3).to_vec();
    vertices.extend(upright_triangle(9));
    julia.render(&vertices, &[(3, 4, 5), (0, 1, 2)], &flat(RED));
    assert_frame(&julia, &upright_pixels(), RED, 9);
    let mut other = Julia3D::new(4, 4);
    other.render(&vertices, &[(0, 1, 2), (3, 4, 5)], &flat(RED));
    assert_frame(&other, &upright_pixels(), RED, 9);
    julia.render(&vertices, &[], &flat(GREEN));
    assert_frame(&julia, &upright_pixels(), RED, 9);
}

#[test]
fn render_clips_a_triangle_that_is_half_outside() {
    let mut julia = Julia3D::new(4, 4);
    let vertices = [vertex(-ONE, -ONE, 0), vertex(3 * ONE, -ONE, 0), vertex(ONE, ONE / 2, 0)];
    julia.render(&vertices, &[(0, 1, 2)], &flat(RED));
    let covered =
        [(-2, -2), (-1, -2), (-1, -1), (0, -2), (0, -1), (1, -2), (1, -1), (1, 0)];
    assert_frame(&julia, &covered, RED, 0);
    assert_eq!(julia.buff_ptr().len(), 16);
}

#[test]
fn render_discards_rows_outside_the_viewport() {
    let mut julia = Julia3D::new(4, 4);
    let vertices = [vertex(-ONE, -3 * ONE, 0), vertex(ONE, -3 * ONE, 0), vertex(-ONE, 3 * ONE, 0)];
    julia.render(&vertices, &[(0, 1, 2)], &flat(RED));
    let (w, h) = julia.shape();
    let mut painted = 0;
    for y in -(h / 2)..(h - h / 2) {
        for x in -(w / 2)..(w - w / 2) {
            if julia.color_at(x, y) == Some(RED) {
                painted += 1;
                assert_eq!(julia.depth_at(x, y), Some(0));
            }
        }
    }
    assert!(painted > 0);
    assert_eq!(julia.buff_ptr().len(), 16);
    assert_eq!(julia.color_at(0, 5), None);
}

#[test]
fn render_writes_nothing_outside_the_depth_range() {
    let mut julia = Julia3D::new(4, 4);
    julia.render(&upright_triangle(2 * ONE), &[(0, 1, 2)], &flat(RED));
    assert_frame(&julia, &[], BLACK, DEPTH_SENTINEL);
}

fn by_weight(face: (i32, i32, i32), weights: &Barycentric) -> (u8, u8, u8) {
    (
        (255 * weights.num[0] / weights.den) as u8,
        (255 * weights.num[1] / weights.den) as u8,
        face.2 as u8,
    )
}

#[test]
fn render_asks_the_sampler_with_the_face_and_the_weights() {
    let mut julia = Julia3D::new(4, 4);
    julia.render(&upright_triangle(0), &[(0, 1, 2)], &by_weight);
    assert_eq!(julia.color_at(-2, -2), Some((255, 0, 2)));
    assert_eq!(julia.color_at(-1, -1), Some((170, 42, 2)));
    assert_eq!(julia.color_at(0, -2), Some((127, 127, 2)));
    assert_eq!(julia.color_at(1, 1), Some((0, 127, 2)));
    assert_eq!(julia.color_at(0, 0), Some(BLACK));
}

#[test]
fn render_asks_the_sampler_only_for_fragments_that_pass() {
    let asked = Cell::new(0);
    let counting = |_face: (i32, i32, i32), _weights: &Barycentric| {
        asked.set(asked.get() + 1);
        RED
    };
    let mut julia = Julia3D::new(4, 4);
    julia.render(&upright_triangle(5), &[(0, 1, 2)], &counting);
    assert_eq!(asked.get(), 11);
    julia.render(&upright_triangle(5), &[(0, 1, 2)], &counting);
    julia.render(&upright_triangle(-5), &[(0, 1, 2)], &counting);
    assert_eq!(asked.get(), 11);
    julia.render(&upright_triangle(6), &[(0, 1, 2)], &counting);
    assert_eq!(asked.get(), 22);
}

fn numbered_texture(width: u32, height: u32) -> julia3d::texture::Texture {
    let mut pixels = Vec::new();
    for y in 0..height {
        for x in 0..width {
            pixels.push((x as u8, y as u8, 7));
        }
    }
    julia3d::texture::Texture::new(width, height, pixels).unwrap()
}

#[test]
fn texture_needs_a_colour_for_every_texel() {
    assert!(julia3d::texture::Texture::new(2, 2, vec![BLACK; 4]).is_some());
    assert!(julia3d::texture::Texture::new(2, 2, vec![BLACK; 3]).is_none());
    assert!(julia3d::texture::Texture::new(2, 2, vec![BLACK; 5]).is_none());
    assert!(julia3d::texture::Texture::new(0, 2, vec![]).is_none());
    assert!(julia3d::texture::Texture::new(2, 0, vec![]).is_none());
    assert_eq!(numbered_texture(20, 30).shape(), (20, 30));
}

#[test]
fn get_pixel_snaps_to_every_fifth_texel() {
    let texture = numbered_texture(20, 20);
    assert_eq!(texture.get_pixel((-ONE, -ONE)), (0, 0, 7));
    assert_eq!(texture.get_pixel((0, 0)), (10, 10, 7));
    assert_eq!(texture.get_pixel((ONE / 2, -ONE / 2)), (15, 5, 7));
    assert_eq!(texture.get_pixel((1000, -1000)), (10, 10, 7));
}

#[test]
fn get_pixel_rounds_a_tie_up() {
    let texture = numbered_texture(20, 20);
    assert_eq!(texture.get_pixel((-49152, -49153)), (5, 0, 7));
}

#[test]
fn get_pixel_clamps_to_the_edge() {
    let texture = numbered_texture(20, 20);
    assert_eq!(texture.get_pixel((ONE, ONE)), (19, 19, 7));
    assert_eq!(texture.get_pixel((i32::MAX, i32::MIN)), (19, 0, 7));
    assert_eq!(texture.get_pixel((-2 * ONE, 5 * ONE)), (0, 19, 7));
    let single = numbered_texture(1, 1);
    assert_eq!(single.get_pixel((0, 0)), (0, 0, 7));
    assert_eq!(single.get_pixel((ONE, -ONE)), (0, 0, 7));
}

#[test]
fn get_pixel_bilinear_snaps_to_every_thirty_second_texel() {
    let texture = numbered_texture(100, 70);
    assert_eq!(texture.get_pixel_bilinear((0, 0)), (64, 32, 7));
    assert_eq!(texture.get_pixel_bilinear((ONE, ONE)), (96, 64, 7));
    assert_eq!(texture.get_pixel_bilinear((-ONE, -ONE)), (0, 0, 7));
    let small = numbered_texture(40, 2);
    assert_eq!(small.get_pixel_bilinear((ONE, ONE)), (32, 0, 7));
    assert_eq!(small.get_pixel_bilinear((i32::MAX, i32::MAX)), (38, 0, 7));
}
