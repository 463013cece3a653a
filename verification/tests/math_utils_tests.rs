use julia3d::math_utils::{as_linear_combination, is_dot_inside_triangle, oriented_area};

#[test]
fn oriented_area_is_twice_the_signed_area() {
    assert_eq!(oriented_area((0, 0), (1, 0), (0, 1)), 1);
    assert_eq!(oriented_area((0, 0), (0, 1), (1, 0)), -1);
    assert_eq!(oriented_area((0i64, 0i64), (4, 0), (0, 3)), 12);
    assert_eq!(oriented_area((-2, -2), (2, -2), (0, 2)), 16);
}

#[test]
fn oriented_area_of_collinear_points_is_zero() {
    assert_eq!(oriented_area((0, 0), (2, 2), (5, 5)), 0);
    assert_eq!(oriented_area((1, 1), (1, 1), (1, 1)), 0);
}

#[test]
fn oriented_area_of_other_number_types() {
    assert_eq!(oriented_area((0.0, 0.0), (2.0, 0.0), (0.0, 2.0)), 4.0);
    assert_eq!(oriented_area((0i8, 0i8), (3, 0), (0, 3)), 9);
}

#[test]
fn is_dot_inside_triangle_whichever_way_the_triangle_turns() {
    assert!(is_dot_inside_triangle((1, 1), (0, 0), (3, 0), (0, 3)));
    assert!(is_dot_inside_triangle((1, 1), (0, 0), (0, 3), (3, 0)));
    assert!(!is_dot_inside_triangle((5, 5), (0, 0), (3, 0), (0, 3)));
    assert!(!is_dot_inside_triangle((-1, 1), (0, 0), (3, 0), (0, 3)));
}

#[test]
fn is_dot_inside_triangle_counts_the_boundary() {
    assert!(is_dot_inside_triangle((0, 0), (0, 0), (3, 0), (0, 3)));
    assert!(is_dot_inside_triangle((1, 0), (0, 0), (3, 0), (0, 3)));
    assert!(is_dot_inside_triangle((2, 1), (0, 0), (3, 0), (0, 3)));
    assert!(!is_dot_inside_triangle((2, 2), (0, 0), (3, 0), (0, 3)));
}

#[test]
fn is_dot_inside_triangle_of_other_number_types() {
    assert!(is_dot_inside_triangle((0.5, 0.5), (0.0, 0.0), (2.0, 0.0), (0.0, 2.0)));
    assert!(!is_dot_inside_triangle((1.5, 1.5), (0.0, 0.0), (2.0, 0.0), (0.0, 2.0)));
    assert!(is_dot_inside_triangle((1i64, 1i64), (0, 0), (3, 0), (0, 3)));
}

#[test]
fn as_linear_combination_solves_for_the_coefficients() {
    assert_eq!(as_linear_combination((2, 3), (1, 0), (0, 1)), (2, 3));
    assert_eq!(as_linear_combination((7, 1), (1, 1), (2, -1)), (3, 2));
    assert_eq!(as_linear_combination((1.0, 2.0), (2.0, 0.0), (0.0, 4.0)), (0.5, 0.5));
}

#[test]
fn as_linear_combination_of_integers_truncates() {
    assert_eq!(as_linear_combination((1, 1), (2, 0), (0, 2)), (0, 0));
    assert_eq!(as_linear_combination((-3, 5), (2, 0), (0, 2)), (-1, 2));
}
