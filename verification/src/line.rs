//! Discretisation of a segment between two pixels.
//!
//! A segment is walked one pixel at a time along its driving axis, the axis on which its
//! endpoints lie further apart. The walk starts at the endpoint with the smaller driving
//! coordinate and stops one pixel short of the other, so the same pixels come out whichever
//! way round the endpoints are given. At every step the other coordinate is the exact point
//! of the segment rounded to the nearest pixel, a tie going towards the starting endpoint.

use vstd::arithmetic::div_mod::lemma_fundamental_div_mod_converse;
use vstd::prelude::*;

verus! {

/// The absolute value of an integer.
pub open spec fn abs(x: int) -> int {
    if x < 0 {
        -x
    } else {
        x
    }
}

/// A pixel as a pair of mathematical integers.
pub open spec fn coords(p: (i32, i32)) -> (int, int) {
    (p.0 as int, p.1 as int)
}

/// A sequence of pixels as pairs of mathematical integers.
pub open spec fn pixels(s: Seq<(i32, i32)>) -> Seq<(int, int)> {
    Seq::new(s.len(), |i: int| coords(s[i]))
}

/// How far a walk has moved along the minor axis after `step` unit steps along the major
/// axis, for a segment that covers `major > 0` pixels on the one and `minor >= 0` on the
/// other: `minor * step / major` rounded to the nearest integer, a tie rounded down.
pub open spec fn minor_offset(step: int, major: int, minor: int) -> int {
    (2 * minor * step + major - 1) / (2 * major)
}

/// Pixel number `step` of a walk along x that starts at `a` and covers `dx` columns while
/// the segment rises by `dy` rows.
pub open spec fn unit_x_pixel(a: (int, int), dx: int, dy: int, step: int) -> (int, int) {
    (
        a.0 + step,
        if dy >= 0 {
            a.1 + minor_offset(step, dx, dy)
        } else {
            a.1 - minor_offset(step, dx, -dy)
        },
    )
}

/// Pixel number `step` of a walk along y that starts at `a` and covers `dy` rows while the
/// segment moves right by `dx` columns.
pub open spec fn unit_y_pixel(a: (int, int), dx: int, dy: int, step: int) -> (int, int) {
    (
        if dx >= 0 {
            a.0 + minor_offset(step, dy, dx)
        } else {
            a.0 - minor_offset(step, dy, -dx)
        },
        a.1 + step,
    )
}

/// The pixels of a walk along x: one per column, `dx` of them.
pub open spec fn line_unit_x_spec(a: (int, int), dx: int, dy: int) -> Seq<(int, int)> {
    Seq::new(
        if dx >= 0 {
            dx as nat
        } else {
            0
        },
        |step: int| unit_x_pixel(a, dx, dy, step),
    )
}

/// The pixels of a walk along y: one per row, `dy` of them.
pub open spec fn line_unit_y_spec(a: (int, int), dx: int, dy: int) -> Seq<(int, int)> {
    Seq::new(
        if dy >= 0 {
            dy as nat
        } else {
            0
        },
        |step: int| unit_y_pixel(a, dx, dy, step),
    )
}

/// The pixels of the segment between `a` and `b`, in the order in which they are emitted.
pub open spec fn line_spec(a: (int, int), b: (int, int)) -> Seq<(int, int)> {
    let dx = b.0 - a.0;
    let dy = b.1 - a.1;
    if abs(dx) >= abs(dy) {
        if dx >= 0 {
            line_unit_x_spec(a, dx, dy)
        } else {
            line_unit_x_spec(b, -dx, -dy)
        }
    } else {
        if dy >= 0 {
            line_unit_y_spec(a, dx, dy)
        } else {
            line_unit_y_spec(b, -dx, -dy)
        }
    }
}

/// The error term of the walk pins the minor offset: an offset `k` whose doubled product
/// with `major` lies within `major` of the doubled exact position is the rounded position.
proof fn lemma_offset_from_error(step: int, major: int, minor: int, k: int, prod_step: int, prod_k: int)
    requires
        major > 0,
        prod_step == minor * step,
        prod_k == major * k,
        2 * prod_step - major <= 2 * prod_k < 2 * prod_step + major,
    ensures
        k == minor_offset(step, major, minor),
{
    let n = 2 * minor * step + major - 1;
    let r = n - k * (2 * major);
    assert(2 * minor * step == 2 * prod_step) by (nonlinear_arith)
        requires
            prod_step == minor * step,
    ;
    assert(k * (2 * major) == 2 * prod_k) by (nonlinear_arith)
        requires
            prod_k == major * k,
    ;
    lemma_fundamental_div_mod_converse(n, 2 * major, k, r);
}

/// The minor offset never leaves the segment: it starts at zero, never decreases, and stays
/// at or below `minor` for every step up to `major`.
pub proof fn lemma_minor_offset_bounds(step: int, major: int, minor: int)
    requires
        0 <= minor <= major,
        0 < major,
        0 <= step <= major,
    ensures
        0 <= minor_offset(step, major, minor) <= minor,
        minor_offset(step, major, minor) <= step,
        minor_offset(0, major, minor) == 0,
        minor_offset(major, major, minor) == minor,
{
    let n = 2 * minor * step + major - 1;
    let k = n / (2 * major);
    vstd::arithmetic::div_mod::lemma_fundamental_div_mod(n, 2 * major);
    vstd::arithmetic::div_mod::lemma_mod_bound(n, 2 * major);
    assert(0 <= 2 * minor * step <= 2 * minor * major) by (nonlinear_arith)
        requires
            0 <= minor,
            0 <= step <= major,
    ;
    assert(0 <= k <= minor && k <= step) by (nonlinear_arith)
        requires
            n == (2 * major) * k + n % (2 * major),
            0 <= n % (2 * major) < 2 * major,
            n == 2 * minor * step + major - 1,
            0 <= minor <= major,
            0 < major,
            0 <= step <= major,
    ;
    lemma_fundamental_div_mod_converse(major - 1, 2 * major, 0, major - 1);
    assert(2 * minor * 0 + major - 1 == major - 1);
    assert(2 * minor * major + major - 1 == minor * (2 * major) + (major - 1)) by (nonlinear_arith);
    lemma_fundamental_div_mod_converse(2 * minor * major + major - 1, 2 * major, minor, major - 1);
}

/// Walks along x from `a` over `dx` columns, on a segment that rises by `dy` rows.
pub fn line_unit_x(a: (i32, i32), dx: i64, dy: i64) -> (result: Vec<(i32, i32)>)
    requires
        0 <= dx,
        -dx <= dy <= dx,
        a.0 + dx <= i32::MAX,
        i32::MIN <= a.1 + dy <= i32::MAX,
    ensures
        pixels(result@) == line_unit_x_spec(coords(a), dx as int, dy as int),
{
    let (ady, yinc): (i64, i64) = if dy >= 0 {
        (dy, 1)
    } else {
        (-dy, -1)
    };
    let mut y: i64 = a.1 as i64;
    let mut d: i64 = 2 * ady - dx;
    let mut result: Vec<(i32, i32)> = Vec::new();
    let mut step: i64 = 0;
    let ghost mut k: int = 0;
    let ghost mut prod_step: int = 0;
    let ghost mut prod_k: int = 0;
    assert(ady * 0 == 0 && dx * 0 == 0) by (nonlinear_arith);
    while step < dx
        invariant
            0 <= step <= dx,
            dx <= 0xffff_ffff,
            0 <= ady <= dx,
            ady == abs(dy as int),
            yinc == (if dy >= 0 { 1int } else { -1int }),
            a.0 + dx <= i32::MAX,
            i32::MIN <= a.1 + dy <= i32::MAX,
            prod_step == ady * step,
            prod_k == dx * k,
            0 <= k <= ady,
            y == (if dy >= 0 { a.1 + k } else { a.1 - k }),
            d == 2 * prod_step + 2 * ady - dx - 2 * prod_k,
            dx > 0 ==> 2 * ady - 2 * dx < d <= 2 * ady,
            result.len() == step,
            forall|j: int|
                0 <= j < step ==> coords(#[trigger] result[j]) == unit_x_pixel(
                    coords(a),
                    dx as int,
                    dy as int,
                    j,
                ),
        decreases dx - step,
    {
        proof {
            lemma_offset_from_error(step as int, dx as int, ady as int, k, prod_step, prod_k);
        }
        result.push(((a.0 as i64 + step) as i32, y as i32));
        if d > 0 {
            d -= 2 * dx;
            y += yinc;
            proof {
                k = k + 1;
                prod_k = prod_k + dx;
                assert(dx * k == dx * (k - 1) + dx) by (nonlinear_arith);
            }
        }
        d += 2 * ady;
        step += 1;
        proof {
            prod_step = prod_step + ady;
            assert(ady * step == ady * (step - 1) + ady) by (nonlinear_arith);
            assert(k <= ady) by (nonlinear_arith)
                requires
                    2 * prod_k < 2 * prod_step + dx,
                    prod_k == dx * k,
                    prod_step == ady * step,
                    0 <= step <= dx,
                    0 <= ady,
                    0 < dx,
            ;
        }
    }
    assert(pixels(result@) =~= line_unit_x_spec(coords(a), dx as int, dy as int));
    result
}

/// Walks along y from `a` over `dy` rows, on a segment that moves right by `dx` columns.
pub fn line_unit_y(a: (i32, i32), dx: i64, dy: i64) -> (result: Vec<(i32, i32)>)
    requires
        0 <= dy,
        -dy <= dx <= dy,
        a.1 + dy <= i32::MAX,
        i32::MIN <= a.0 + dx <= i32::MAX,
    ensures
        pixels(result@) == line_unit_y_spec(coords(a), dx as int, dy as int),
{
    let (adx, xinc): (i64, i64) = if dx >= 0 {
        (dx, 1)
    } else {
        (-dx, -1)
    };
    let mut x: i64 = a.0 as i64;
    let mut d: i64 = 2 * adx - dy;
    let mut result: Vec<(i32, i32)> = Vec::new();
    let mut step: i64 = 0;
    let ghost mut k: int = 0;
    let ghost mut prod_step: int = 0;
    let ghost mut prod_k: int = 0;
    assert(adx * 0 == 0 && dy * 0 == 0) by (nonlinear_arith);
    while step < dy
        invariant
            0 <= step <= dy,
            dy <= 0xffff_ffff,
            0 <= adx <= dy,
            adx == abs(dx as int),
            xinc == (if dx >= 0 { 1int } else { -1int }),
            a.1 + dy <= i32::MAX,
            i32::MIN <= a.0 + dx <= i32::MAX,
            prod_step == adx * step,
            prod_k == dy * k,
            0 <= k <= adx,
            x == (if dx >= 0 { a.0 + k } else { a.0 - k }),
            d == 2 * prod_step + 2 * adx - dy - 2 * prod_k,
            dy > 0 ==> 2 * adx - 2 * dy < d <= 2 * adx,
            result.len() == step,
            forall|j: int|
                0 <= j < step ==> coords(#[trigger] result[j]) == unit_y_pixel(
                    coords(a),
                    dx as int,
                    dy as int,
                    j,
                ),
        decreases dy - step,
    {
        proof {
            lemma_offset_from_error(step as int, dy as int, adx as int, k, prod_step, prod_k);
        }
        result.push((x as i32, (a.1 as i64 + step) as i32));
        if d > 0 {
            d -= 2 * dy;
            x += xinc;
            proof {
                k = k + 1;
                prod_k = prod_k + dy;
                assert(dy * k == dy * (k - 1) + dy) by (nonlinear_arith);
            }
        }
        d += 2 * adx;
        step += 1;
        proof {
            prod_step = prod_step + adx;
            assert(adx * step == adx * (step - 1) + adx) by (nonlinear_arith);
            assert(k <= adx) by (nonlinear_arith)
                requires
                    2 * prod_k < 2 * prod_step + dy,
                    prod_k == dy * k,
                    prod_step == adx * step,
                    0 <= step <= dy,
                    0 <= adx,
                    0 < dy,
            ;
        }
    }
    assert(pixels(result@) =~= line_unit_y_spec(coords(a), dx as int, dy as int));
    result
}

/// The pixels of the segment between `a` and `b`: as many as the endpoints lie apart on the
/// driving axis, the endpoint with the smaller driving coordinate first, the other left out.
pub fn line(a: (i32, i32), b: (i32, i32)) -> (result: Vec<(i32, i32)>)
    ensures
        pixels(result@) == line_spec(coords(a), coords(b)),
{
    let dx: i64 = b.0 as i64 - a.0 as i64;
    let dy: i64 = b.1 as i64 - a.1 as i64;
    let adx: i64 = if dx >= 0 {
        dx
    } else {
        -dx
    };
    let ady: i64 = if dy >= 0 {
        dy
    } else {
        -dy
    };
    if adx >= ady {
        if dx >= 0 {
            line_unit_x(a, dx, dy)
        } else {
            line_unit_x(b, -dx, -dy)
        }
    } else {
        if dy >= 0 {
            line_unit_y(a, dx, dy)
        } else {
            line_unit_y(b, -dx, -dy)
        }
    }
}


/// The segment between `a` and `b` has as many pixels as its ends lie apart on the axis on
/// which they lie further apart.
pub proof fn lemma_line_len(a: (int, int), b: (int, int))
    ensures
        line_spec(a, b).len() == if abs(b.0 - a.0) >= abs(b.1 - a.1) {
            abs(b.0 - a.0)
        } else {
            abs(b.1 - a.1)
        },
{
}

/// Every pixel of a segment lies in the bounding box of its two ends, and differs from the
/// end at which the walk stops.
pub proof fn lemma_line_in_bounding_box(a: (int, int), b: (int, int), i: int)
    requires
        0 <= i < line_spec(a, b).len(),
    ensures
        a.0 <= line_spec(a, b)[i].0 <= b.0 || b.0 <= line_spec(a, b)[i].0 <= a.0,
        a.1 <= line_spec(a, b)[i].1 <= b.1 || b.1 <= line_spec(a, b)[i].1 <= a.1,
        a != b,
{
    let dx = b.0 - a.0;
    let dy = b.1 - a.1;
    if abs(dx) >= abs(dy) {
        lemma_minor_offset_bounds(i, abs(dx), abs(dy));
    } else {
        lemma_minor_offset_bounds(i, abs(dy), abs(dx));
    }
}

/// The two orders of the ends of a segment give the same pixels in the same order.
pub proof fn lemma_line_symmetric(a: (int, int), b: (int, int))
    ensures
        line_spec(a, b) == line_spec(b, a),
{
    assert(line_spec(a, b) =~= line_spec(b, a));
}


/// The rounded offset lies on the same side of every whole number as the exact offset
/// `minor * step / major`.
pub proof fn lemma_minor_offset_side(step: int, major: int, minor: int, q: int)
    requires
        0 < major,
        0 <= minor,
        0 <= step,
    ensures
        major * q <= minor * step ==> q <= minor_offset(step, major, minor),
        major * q >= minor * step ==> q >= minor_offset(step, major, minor),
{
    let n = 2 * minor * step + major - 1;
    let k = n / (2 * major);
    let r = n % (2 * major);
    vstd::arithmetic::div_mod::lemma_fundamental_div_mod(n, 2 * major);
    vstd::arithmetic::div_mod::lemma_mod_bound(n, 2 * major);
    let ms = minor * step;
    let mq = major * q;
    let mk = major * k;
    assert(n == 2 * ms + major - 1) by (nonlinear_arith)
        requires
            n == 2 * minor * step + major - 1,
            ms == minor * step,
    ;
    assert((2 * major) * k == 2 * mk) by (nonlinear_arith)
        requires
            mk == major * k,
    ;
    if mq <= ms {
        assert(q <= k) by (nonlinear_arith)
            requires
                mq == major * q,
                mk == major * k,
                major > 0,
                2 * mk + 2 * major > 2 * mq,
        ;
    }
    if mq >= ms {
        assert(q >= k) by (nonlinear_arith)
            requires
                mq == major * q,
                mk == major * k,
                major > 0,
                2 * mk < 2 * mq + major,
        ;
    }
}

/// On a walk along the major axis of a segment that is strictly longer on that axis, every
/// offset `t` strictly between the two ends is taken at some step, and such a step lies on
/// either side of every whole number that the exact step `t * major / minor` lies on.
pub proof fn lemma_step_with_offset(t: int, major: int, minor: int, q: int) -> (steps: (int, int))
    requires
        0 < minor < major,
        0 < t < minor,
    ensures
        0 <= steps.0 < major,
        0 <= steps.1 < major,
        minor_offset(steps.0, major, minor) == t,
        minor_offset(steps.1, major, minor) == t,
        minor * q <= t * major ==> q <= steps.0,
        minor * q >= t * major ==> q >= steps.1,
{
    let tm = t * major;
    let up = (2 * tm + minor) / (2 * minor);
    let down = (2 * tm + minor - 1) / (2 * minor);
    vstd::arithmetic::div_mod::lemma_fundamental_div_mod(2 * tm + minor, 2 * minor);
    vstd::arithmetic::div_mod::lemma_mod_bound(2 * tm + minor, 2 * minor);
    vstd::arithmetic::div_mod::lemma_fundamental_div_mod(2 * tm + minor - 1, 2 * minor);
    vstd::arithmetic::div_mod::lemma_mod_bound(2 * tm + minor - 1, 2 * minor);
    let mq = minor * q;
    let mup = minor * up;
    let mdown = minor * down;
    assert((2 * minor) * up == 2 * mup && (2 * minor) * down == 2 * mdown) by (nonlinear_arith)
        requires
            mup == minor * up,
            mdown == minor * down,
    ;
    lemma_step_takes_offset(t, major, minor, up);
    lemma_step_takes_offset(t, major, minor, down);
    if mq <= tm {
        assert(q <= up) by (nonlinear_arith)
            requires
                mq == minor * q,
                mup == minor * up,
                minor > 0,
                2 * mup + 2 * minor > 2 * mq + minor,
        ;
    }
    if mq >= tm {
        assert(q >= down) by (nonlinear_arith)
            requires
                mq == minor * q,
                mdown == minor * down,
                minor > 0,
                2 * mdown <= 2 * mq + minor - 1,
        ;
    }
    (up, down)
}

/// A step whose exact offset lies within half a pixel of `t` takes the offset `t`, and is a
/// step of the walk.
proof fn lemma_step_takes_offset(t: int, major: int, minor: int, j: int)
    requires
        0 < minor < major,
        0 < t < minor,
        -minor <= 2 * (minor * j) - 2 * (t * major) <= minor,
    ensures
        0 <= j < major,
        minor_offset(j, major, minor) == t,
{
    let mj = minor * j;
    let tm = t * major;
    assert(tm >= major && tm <= (minor - 1) * major) by (nonlinear_arith)
        requires
            tm == t * major,
            0 < t < minor,
            major > 0,
    ;
    assert((minor - 1) * major == minor * major - major) by (nonlinear_arith);
    let mm = minor * major;
    assert(0 <= j < major) by (nonlinear_arith)
        requires
            mj == minor * j,
            mm == minor * major,
            minor > 0,
            2 * mj >= 2 * major - minor,
            2 * mj <= 2 * mm - 2 * major + minor,
            minor < major,
    ;
    let n = 2 * minor * j + major - 1;
    assert(n == 2 * mj + major - 1) by (nonlinear_arith)
        requires
            n == 2 * minor * j + major - 1,
            mj == minor * j,
    ;
    assert(t * (2 * major) == 2 * tm) by (nonlinear_arith)
        requires
            tm == t * major,
    ;
    lemma_fundamental_div_mod_converse(n, 2 * major, t, n - 2 * tm);
}


/// Which side of the line from `a` to `b` the point `p` lies on: positive on the left of the
/// direction from `a` to `b`, negative on the right, zero on the line.
pub open spec fn cross(a: (int, int), b: (int, int), p: (int, int)) -> int {
    (b.0 - a.0) * (p.1 - a.1) - (b.1 - a.1) * (p.0 - a.0)
}

/// Seen from the other end, a point lies on the other side.
pub proof fn lemma_cross_antisymmetric(a: (int, int), b: (int, int), p: (int, int))
    ensures
        cross(b, a, p) == -cross(a, b, p),
{
    assert(cross(b, a, p) == -cross(a, b, p)) by (nonlinear_arith)
        requires
            cross(a, b, p) == (b.0 - a.0) * (p.1 - a.1) - (b.1 - a.1) * (p.0 - a.0),
            cross(b, a, p) == (a.0 - b.0) * (p.1 - b.1) - (a.1 - b.1) * (p.0 - b.0),
    ;
}

/// A segment that passes a column strictly between its ends, at or above the pixel `p` of
/// that column, has a pixel in that column at or above `p`.
pub proof fn lemma_line_reaches_above(a: (int, int), b: (int, int), p: (int, int)) -> (i: int)
    requires
        a.0 < p.0 < b.0,
        cross(a, b, p) <= 0,
    ensures
        0 <= i < line_spec(a, b).len(),
        line_spec(a, b)[i].0 == p.0,
        line_spec(a, b)[i].1 >= p.1,
{
    let dx = b.0 - a.0;
    let dy = b.1 - a.1;
    let t = p.0 - a.0;
    let left = dx * (p.1 - a.1);
    let right = dy * t;
    assert(left <= right);
    if dx >= abs(dy) {
        if dy >= 0 {
            lemma_minor_offset_side(t, dx, dy, p.1 - a.1);
        } else {
            assert(dx * (a.1 - p.1) == -left && (-dy) * t == -right) by (nonlinear_arith)
                requires
                    left == dx * (p.1 - a.1),
                    right == dy * t,
            ;
            lemma_minor_offset_side(t, dx, -dy, a.1 - p.1);
        }
        t
    } else if dy > 0 {
        assert(t * dy == right) by (nonlinear_arith)
            requires
                right == dy * t,
        ;
        let steps = lemma_step_with_offset(t, dy, dx, p.1 - a.1);
        steps.0
    } else {
        let back = b.0 - p.0;
        assert(dx * (p.1 - b.1) <= back * (-dy)) by (nonlinear_arith)
            requires
                dx * (p.1 - a.1) <= dy * t,
                dy == b.1 - a.1,
                dx == b.0 - a.0,
                t == p.0 - a.0,
                back == b.0 - p.0,
        ;
        let steps = lemma_step_with_offset(back, -dy, dx, p.1 - b.1);
        steps.0
    }
}

/// A segment that passes a column strictly between its ends, at or below the pixel `p` of
/// that column, has a pixel in that column at or below `p`.
pub proof fn lemma_line_reaches_below(a: (int, int), b: (int, int), p: (int, int)) -> (i: int)
    requires
        a.0 < p.0 < b.0,
        cross(a, b, p) >= 0,
    ensures
        0 <= i < line_spec(a, b).len(),
        line_spec(a, b)[i].0 == p.0,
        line_spec(a, b)[i].1 <= p.1,
{
    let dx = b.0 - a.0;
    let dy = b.1 - a.1;
    let t = p.0 - a.0;
    let left = dx * (p.1 - a.1);
    let right = dy * t;
    assert(left >= right);
    if dx >= abs(dy) {
        if dy >= 0 {
            lemma_minor_offset_side(t, dx, dy, p.1 - a.1);
        } else {
            assert(dx * (a.1 - p.1) == -left && (-dy) * t == -right) by (nonlinear_arith)
                requires
                    left == dx * (p.1 - a.1),
                    right == dy * t,
            ;
            lemma_minor_offset_side(t, dx, -dy, a.1 - p.1);
        }
        t
    } else if dy > 0 {
        assert(t * dy == right) by (nonlinear_arith)
            requires
                right == dy * t,
        ;
        let steps = lemma_step_with_offset(t, dy, dx, p.1 - a.1);
        steps.1
    } else {
        let back = b.0 - p.0;
        assert(dx * (p.1 - b.1) >= back * (-dy)) by (nonlinear_arith)
            requires
                dx * (p.1 - a.1) >= dy * t,
                dy == b.1 - a.1,
                dx == b.0 - a.0,
                t == p.0 - a.0,
                back == b.0 - p.0,
        ;
        let steps = lemma_step_with_offset(back, -dy, dx, p.1 - b.1);
        steps.1
    }
}

} // verus!
