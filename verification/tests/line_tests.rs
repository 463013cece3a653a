use std::collections::BTreeSet;

fn pixel_set(px: &[(i32, i32)]) -> BTreeSet<(i32, i32)> {
    px.iter().copied().collect()
}

#[test]
fn line_from_origin_to_ten_three() {
    let px = julia3d::line::line((0, 0), (10, 3));
    assert_eq!(px.len(), 10);
    for i in 0..10 {
        assert_eq!(px[i].0, i as i32);
    }
    for i in 1..10 {
        assert!(px[i - 1].1 <= px[i].1);
    }
    assert_eq!(
        px,
        vec![(0, 0), (1, 0), (2, 1), (3, 1), (4, 1), (5, 1), (6, 2), (7, 2), (8, 2), (9, 3)]
    );
}

#[test]
fn line_gives_the_same_pixels_either_way_round() {
    let ends = [
        ((0, 0), (10, 3)),
        ((-5, 7), (4, -9)),
        ((3, 3), (3, -8)),
        ((-6, 2), (9, 2)),
        ((1, 1), (8, 8)),
        ((0, 0), (-7, 7)),
        ((2, -3), (2, -3)),
    ];
    for (a, b) in ends {
        let forward = julia3d::line::line(a, b);
        let backward = julia3d::line::line(b, a);
        assert_eq!(pixel_set(&forward), pixel_set(&backward));
        assert_eq!(forward, backward);
    }
}

#[test]
fn line_of_no_length_is_empty() {
    assert!(julia3d::line::line((4, -2), (4, -2)).is_empty());
    assert!(julia3d::line::line((0, 0), (0, 0)).is_empty());
}

#[test]
fn line_horizontal_is_exact() {
    assert_eq!(julia3d::line::line((-2, 5), (2, 5)), vec![(-2, 5), (-1, 5), (0, 5), (1, 5)]);
    assert_eq!(julia3d::line::line((2, 5), (-2, 5)), vec![(-2, 5), (-1, 5), (0, 5), (1, 5)]);
}

#[test]
fn line_vertical_is_exact() {
    assert_eq!(julia3d::line::line((3, -1), (3, 2)), vec![(3, -1), (3, 0), (3, 1)]);
    assert_eq!(julia3d::line::line((3, 2), (3, -1)), vec![(3, -1), (3, 0), (3, 1)]);
}

#[test]
fn line_diagonal_steps_on_both_axes() {
    assert_eq!(julia3d::line::line((0, 0), (3, 3)), vec![(0, 0), (1, 1), (2, 2)]);
    assert_eq!(julia3d::line::line((0, 0), (3, -3)), vec![(0, 0), (1, -1), (2, -2)]);
}

#[test]
fn line_steep_walks_along_y() {
    assert_eq!(
        julia3d::line::line((2, -2), (0, 2)),
        vec![(2, -2), (2, -1), (1, 0), (1, 1)]
    );
    assert_eq!(
        julia3d::line::line((-2, -2), (0, 2)),
        vec![(-2, -2), (-2, -1), (-1, 0), (-1, 1)]
    );
}

#[test]
fn line_leftwards_starts_at_the_left_end() {
    assert_eq!(
        julia3d::line::line((6, -2), (2, 1)),
        vec![(2, 1), (3, 0), (4, 0), (5, -1)]
    );
}

#[test]
fn line_has_as_many_pixels_as_the_longer_extent() {
    assert_eq!(julia3d::line::line((-100, 40), (150, -3)).len(), 250);
    assert_eq!(julia3d::line::line((7, -300), (-20, 300)).len(), 600);
}

#[test]
fn line_stays_in_the_bounding_box_of_its_ends() {
    let a = (-31, 17);
    let b = (12, -40);
    for (x, y) in julia3d::line::line(a, b) {
        assert!(-31 <= x && x <= 12);
        assert!(-40 <= y && y <= 17);
    }
}

#[test]
fn line_near_the_limits_of_a_coordinate() {
    let px = julia3d::line::line((i32::MAX - 3, i32::MIN), (i32::MAX, i32::MIN + 2));
    assert_eq!(
        px,
        vec![(i32::MAX - 3, i32::MIN), (i32::MAX - 2, i32::MIN + 1), (i32::MAX - 1, i32::MIN + 1)]
    );
}

#[test]
fn line_unit_x_walks_one_column_at_a_time() {
    assert_eq!(
        julia3d::line::line_unit_x((0, 0), 4, 2),
        vec![(0, 0), (1, 0), (2, 1), (3, 1)]
    );
    assert_eq!(
        julia3d::line::line_unit_x((0, 0), 4, -2),
        vec![(0, 0), (1, 0), (2, -1), (3, -1)]
    );
    assert!(julia3d::line::line_unit_x((5, 5), 0, 0).is_empty());
}

#[test]
fn line_unit_y_walks_one_row_at_a_time() {
    assert_eq!(
        julia3d::line::line_unit_y((0, 0), 1, 3),
        vec![(0, 0), (0, 1), (1, 2)]
    );
    assert_eq!(
        julia3d::line::line_unit_y((0, 0), -1, 3),
        vec![(0, 0), (0, 1), (-1, 2)]
    );
}
