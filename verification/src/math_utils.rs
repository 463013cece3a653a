//! Plane geometry on pairs of coordinates of any number type.
//!
//! The functions are generic over the number type. What they compute is stated with the
//! specifications that the type gives to its operators, and holds for every type whose
//! operators obey their specifications, as the machine integers do.

use std::ops::{Div, Mul, Sub};
use vstd::prelude::*;
use vstd::std_specs::cmp::{PartialOrdIs, PartialOrdSpec};
use vstd::std_specs::convert::FromSpec;
use vstd::std_specs::ops::{DivSpec, MulSpec, SubSpec};

verus! {

/// Twice the signed area of the triangle `a`, `b`, `c` over the mathematical integers:
/// positive when the three points turn one way, negative when they turn the other,
/// zero when they are collinear.
pub open spec fn oriented_area_int(a: (int, int), b: (int, int), c: (int, int)) -> int {
    (b.0 - a.0) * (c.1 - b.1) - (c.0 - b.0) * (b.1 - a.1)
}

/// The value `oriented_area` computes, written with the operators' own specifications.
pub open spec fn oriented_area_spec<T: Sub<Output = T> + Mul<Output = T>>(
    a: (T, T),
    b: (T, T),
    c: (T, T),
) -> T {
    b.0.sub_spec(a.0).mul_spec(c.1.sub_spec(b.1)).sub_spec(
        c.0.sub_spec(b.0).mul_spec(b.1.sub_spec(a.1)),
    )
}

/// Every operator application inside `oriented_area` is within the operator's domain.
pub open spec fn oriented_area_req<T: Sub<Output = T> + Mul<Output = T>>(
    a: (T, T),
    b: (T, T),
    c: (T, T),
) -> bool {
    &&& T::obeys_sub_spec()
    &&& T::obeys_mul_spec()
    &&& b.0.sub_req(a.0)
    &&& c.1.sub_req(b.1)
    &&& c.0.sub_req(b.0)
    &&& b.1.sub_req(a.1)
    &&& b.0.sub_spec(a.0).mul_req(c.1.sub_spec(b.1))
    &&& c.0.sub_spec(b.0).mul_req(b.1.sub_spec(a.1))
    &&& b.0.sub_spec(a.0).mul_spec(c.1.sub_spec(b.1)).sub_req(
        c.0.sub_spec(b.0).mul_spec(b.1.sub_spec(a.1)),
    )
}

/// Twice the signed area of the triangle `a`, `b`, `c`.
pub fn oriented_area<T: Sub<Output = T> + Mul<Output = T> + Copy>(
    a: (T, T),
    b: (T, T),
    c: (T, T),
) -> (area: T)
    requires
        oriented_area_req(a, b, c),
    ensures
        area == oriented_area_spec(a, b, c),
{
    let (x1, y1) = a;
    let (x2, y2) = b;
    let (x3, y3) = c;
    (x2 - x1) * (y3 - y2) - (x3 - x2) * (y2 - y1)
}

/// The value `is_dot_inside_triangle` computes: the three areas that `d` spans with the sides
/// of the triangle `a`, `b`, `c` are all at least zero, or all at most zero.
pub open spec fn is_dot_inside_triangle_spec<
    T: Sub<Output = T> + Mul<Output = T> + PartialOrd + From<i32>,
>(d: (T, T), a: (T, T), b: (T, T), c: (T, T)) -> bool {
    let s1 = oriented_area_spec(a, d, b);
    let s2 = oriented_area_spec(b, d, c);
    let s3 = oriented_area_spec(c, d, a);
    let zero = T::from_spec(0i32);
    (s1.is_ge(&zero) && s2.is_ge(&zero) && s3.is_ge(&zero)) || (s1.is_le(&zero) && s2.is_le(
        &zero,
    ) && s3.is_le(&zero))
}

/// Every operator application inside `is_dot_inside_triangle` is within the operator's
/// domain, and the comparison and the conversion obey their specifications.
pub open spec fn is_dot_inside_triangle_req<
    T: Sub<Output = T> + Mul<Output = T> + PartialOrd + From<i32>,
>(d: (T, T), a: (T, T), b: (T, T), c: (T, T)) -> bool {
    &&& T::obeys_partial_cmp_spec()
    &&& T::obeys_from_spec()
    &&& oriented_area_req(a, d, b)
    &&& oriented_area_req(b, d, c)
    &&& oriented_area_req(c, d, a)
}

/// Whether the point `d` lies in the triangle `a`, `b`, `c`, its boundary included.
pub fn is_dot_inside_triangle<
    T: Sub<Output = T> + Mul<Output = T> + PartialOrd + From<i32> + Copy,
>(d: (T, T), a: (T, T), b: (T, T), c: (T, T)) -> (inside: bool)
    requires
        is_dot_inside_triangle_req(d, a, b, c),
    ensures
        inside == is_dot_inside_triangle_spec(d, a, b, c),
{
    let (xd, yd) = d;
    let (xa, ya) = a;
    let (xb, yb) = b;
    let (xc, yc) = c;
    let s1 = self::oriented_area((xa, ya), (xd, yd), (xb, yb));
    let s2 = self::oriented_area((xb, yb), (xd, yd), (xc, yc));
    let s3 = self::oriented_area((xc, yc), (xd, yd), (xa, ya));
    let zero = T::from(0_i32);
    (s1 >= zero && s2 >= zero && s3 >= zero) || (s1 <= zero && s2 <= zero && s3 <= zero)
}

/// The two determinants whose quotient is the first coefficient, and the two whose quotient
/// is the second.
pub open spec fn linear_combination_terms<T: Sub<Output = T> + Mul<Output = T>>(
    vec: (T, T),
    basis1: (T, T),
    basis2: (T, T),
) -> ((T, T), (T, T)) {
    let (x0, y0) = vec;
    let (x1, y1) = basis1;
    let (x2, y2) = basis2;
    (
        (
            x0.mul_spec(y2).sub_spec(x2.mul_spec(y0)),
            x1.mul_spec(y2).sub_spec(x2.mul_spec(y1)),
        ),
        (
            x0.mul_spec(y1).sub_spec(x1.mul_spec(y0)),
            x2.mul_spec(y1).sub_spec(x1.mul_spec(y2)),
        ),
    )
}

/// The value `as_linear_combination` computes.
pub open spec fn as_linear_combination_spec<
    T: Sub<Output = T> + Mul<Output = T> + Div<Output = T>,
>(vec: (T, T), basis1: (T, T), basis2: (T, T)) -> (T, T) {
    let (first, second) = linear_combination_terms(vec, basis1, basis2);
    (first.0.div_spec(first.1), second.0.div_spec(second.1))
}

/// Every operator application inside `as_linear_combination` is within the operator's
/// domain. For the machine integers this leaves out a basis whose two vectors are parallel:
/// its determinant is zero, and nothing can be divided by it.
pub open spec fn as_linear_combination_req<
    T: Sub<Output = T> + Mul<Output = T> + Div<Output = T>,
>(vec: (T, T), basis1: (T, T), basis2: (T, T)) -> bool {
    let (x0, y0) = vec;
    let (x1, y1) = basis1;
    let (x2, y2) = basis2;
    let (first, second) = linear_combination_terms(vec, basis1, basis2);
    &&& T::obeys_sub_spec()
    &&& T::obeys_mul_spec()
    &&& T::obeys_div_spec()
    &&& x0.mul_req(y2)
    &&& x2.mul_req(y0)
    &&& x0.mul_spec(y2).sub_req(x2.mul_spec(y0))
    &&& x1.mul_req(y2)
    &&& x2.mul_req(y1)
    &&& x1.mul_spec(y2).sub_req(x2.mul_spec(y1))
    &&& x0.mul_req(y1)
    &&& x1.mul_req(y0)
    &&& x0.mul_spec(y1).sub_req(x1.mul_spec(y0))
    &&& x2.mul_spec(y1).sub_req(x1.mul_spec(y2))
    &&& first.0.div_req(first.1)
    &&& second.0.div_req(second.1)
}

/// The coefficients `alpha` and `lambda` with `alpha * basis1 + lambda * basis2 == vec`, by
/// Cramer's rule: each is a quotient of two determinants.
pub fn as_linear_combination<T: Sub<Output = T> + Mul<Output = T> + Div<Output = T> + Copy>(
    vec: (T, T),
    basis1: (T, T),
    basis2: (T, T),
) -> (coefficients: (T, T))
    requires
        as_linear_combination_req(vec, basis1, basis2),
    ensures
        coefficients == as_linear_combination_spec(vec, basis1, basis2),
{
    let (x0, y0) = vec;
    let (x1, y1) = basis1;
    let (x2, y2) = basis2;
    ((x0 * y2 - x2 * y0) / (x1 * y2 - x2 * y1), (x0 * y1 - x1 * y0) / (x2 * y1 - x1 * y2))
}

} // verus!
