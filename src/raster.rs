//! Triangle coverage and barycentric interpolation on the screen grid.
//!
//! Projected vertices are held in fixed-point screen coordinates, `SUBPIXEL`
//! units to a pixel, so that the inside test and the barycentric weights are
//! exact. Pixel `(x, y)` is sampled at the point `(x * SUBPIXEL, y * SUBPIXEL)`.
//! The weight of each vertex at a point is the signed doubled area of the
//! triangle that the point forms with the opposite edge; the three weights sum
//! to the doubled area of the whole triangle.
use vstd::prelude::*;

verus! {

/// Fixed-point screen units per pixel.
pub const SUBPIXEL: i64 = 256;

/// Largest magnitude of a screen coordinate, in fixed-point units.
pub const COORD_LIMIT: i64 = 16777216;

/// Largest magnitude of a barycentric weight of points within the limits.
pub const WEIGHT_LIMIT: i128 = 4503599627370496;

/// A point on the screen, in fixed-point units.
#[derive(Debug, Clone, Copy, PartialEq, Eq, Structural)]
pub struct ScreenPoint {
    pub x: i64,
    pub y: i64,
}

/// The weights of the three vertices of a triangle at some point.
#[derive(Debug, Clone, Copy, PartialEq, Eq, Structural)]
pub struct Barycentric {
    pub w0: i128,
    pub w1: i128,
    pub w2: i128,
}

/// A covered pixel and the vertex weights at its sample point.
#[derive(Debug, Clone, Copy, PartialEq, Eq, Structural)]
pub struct Fragment {
    pub x: usize,
    pub y: usize,
    pub weights: Barycentric,
}

pub open spec fn within_limits(p: ScreenPoint) -> bool {
    -COORD_LIMIT <= p.x <= COORD_LIMIT && -COORD_LIMIT <= p.y <= COORD_LIMIT
}

/// Signed doubled area of the triangle `a, b, p`: positive when `p` lies to
/// the left of the directed edge `a → b`.
pub open spec fn edge(a: ScreenPoint, b: ScreenPoint, p: ScreenPoint) -> int {
    (b.x - a.x) * (p.y - a.y) - (b.y - a.y) * (p.x - a.x)
}

/// The vertex weights of the triangle `v0, v1, v2` at `p`.
pub open spec fn weights_at(
    v0: ScreenPoint,
    v1: ScreenPoint,
    v2: ScreenPoint,
    p: ScreenPoint,
) -> Barycentric {
    Barycentric {
        w0: edge(v1, v2, p) as i128,
        w1: edge(v2, v0, p) as i128,
        w2: edge(v0, v1, p) as i128,
    }
}

/// The point lies in the closed triangle: no two weights have opposite signs.
pub open spec fn covers(b: Barycentric) -> bool {
    let has_neg = b.w0 < 0 || b.w1 < 0 || b.w2 < 0;
    let has_pos = b.w0 > 0 || b.w1 > 0 || b.w2 > 0;
    !(has_neg && has_pos)
}

pub open spec fn weights_bounded(b: Barycentric) -> bool {
    &&& -WEIGHT_LIMIT <= b.w0 <= WEIGHT_LIMIT
    &&& -WEIGHT_LIMIT <= b.w1 <= WEIGHT_LIMIT
    &&& -WEIGHT_LIMIT <= b.w2 <= WEIGHT_LIMIT
}

/// Doubled signed area of the triangle, as the weights see it.
pub open spec fn total(b: Barycentric) -> int {
    b.w0 + b.w1 + b.w2
}

/// The weighted mean of the vertex values `a0, a1, a2`, rounded down.
pub open spec fn interpolation(b: Barycentric, a0: int, a1: int, a2: int) -> int {
    let num = a0 * b.w0 + a1 * b.w1 + a2 * b.w2;
    let area = total(b);
    if area > 0 {
        num / area
    } else {
        (-num) / (-area)
    }
}

proof fn lemma_edge_bound(a: ScreenPoint, b: ScreenPoint, p: ScreenPoint)
    requires
        within_limits(a),
        within_limits(b),
        within_limits(p),
    ensures
        -WEIGHT_LIMIT <= edge(a, b, p) <= WEIGHT_LIMIT,
{
    let dx1 = b.x - a.x;
    let dy1 = p.y - a.y;
    let dy2 = b.y - a.y;
    let dx2 = p.x - a.x;
    assert(-1125899906842624 <= dx1 * dy1 <= 1125899906842624) by (nonlinear_arith)
        requires
            -33554432 <= dx1 <= 33554432,
            -33554432 <= dy1 <= 33554432,
    ;
    assert(-1125899906842624 <= dy2 * dx2 <= 1125899906842624) by (nonlinear_arith)
        requires
            -33554432 <= dy2 <= 33554432,
            -33554432 <= dx2 <= 33554432,
    ;
    assert(edge(a, b, p) == dx1 * dy1 - dy2 * dx2);
}

/// The signed doubled area of `a, b, p`.
pub fn edge_function(a: ScreenPoint, b: ScreenPoint, p: ScreenPoint) -> (r: i128)
    requires
        within_limits(a),
        within_limits(b),
        within_limits(p),
    ensures
        r == edge(a, b, p),
        -WEIGHT_LIMIT <= r <= WEIGHT_LIMIT,
{
    proof {
        lemma_edge_bound(a, b, p);
    }
    let dx1 = b.x as i128 - a.x as i128;
    let dy1 = p.y as i128 - a.y as i128;
    let dy2 = b.y as i128 - a.y as i128;
    let dx2 = p.x as i128 - a.x as i128;
    proof {
        assert(-1125899906842624 <= dx1 * dy1 <= 1125899906842624) by (nonlinear_arith)
            requires
                -33554432 <= dx1 <= 33554432,
                -33554432 <= dy1 <= 33554432,
        ;
        assert(-1125899906842624 <= dy2 * dx2 <= 1125899906842624) by (nonlinear_arith)
            requires
                -33554432 <= dy2 <= 33554432,
                -33554432 <= dx2 <= 33554432,
        ;
    }
    dx1 * dy1 - dy2 * dx2
}

/// The vertex weights of the triangle `v0, v1, v2` at `p`.
pub fn weights(v0: ScreenPoint, v1: ScreenPoint, v2: ScreenPoint, p: ScreenPoint) -> (r:
    Barycentric)
    requires
        within_limits(v0),
        within_limits(v1),
        within_limits(v2),
        within_limits(p),
    ensures
        r == weights_at(v0, v1, v2, p),
        weights_bounded(r),
{
    Barycentric {
        w0: edge_function(v1, v2, p),
        w1: edge_function(v2, v0, p),
        w2: edge_function(v0, v1, p),
    }
}

/// Whether the weights place their point in the closed triangle.
pub fn is_inside(b: Barycentric) -> (r: bool)
    ensures
        r == covers(b),
{
    let has_neg = b.w0 < 0 || b.w1 < 0 || b.w2 < 0;
    let has_pos = b.w0 > 0 || b.w1 > 0 || b.w2 > 0;
    !(has_neg && has_pos)
}

/// `a / d` rounded down.
fn floor_div(a: i128, d: i128) -> (r: i128)
    requires
        d > 0,
        -0x0100_0000_0000_0000_0000_0000_0000_0000 <= a <= 0x0100_0000_0000_0000_0000_0000_0000_0000,
    ensures
        r == a / d,
{
    let du = d as u128;
    if a >= 0 {
        let q = (a as u128) / du;
        proof {
            vstd::arithmetic::div_mod::lemma_fundamental_div_mod(a as int, d as int);
            vstd::arithmetic::div_mod::lemma_fundamental_div_mod(a as int, du as int);
        }
        q as i128
    } else {
        // `a == -k - 1` with `k >= 0`; then `a / d == -(k / d) - 1`.
        let k = (-(a + 1)) as u128;
        let q = k / du;
        let s = k % du;
        proof {
            vstd::arithmetic::div_mod::lemma_fundamental_div_mod(k as int, du as int);
            assert(a == (-q - 1) * d + (d - 1 - s)) by (nonlinear_arith)
                requires
                    k == du * q + s,
                    a == -(k as int) - 1,
                    du == d,
            ;
            vstd::arithmetic::div_mod::lemma_fundamental_div_mod_converse(
                a as int,
                d as int,
                -q - 1,
                d - 1 - s,
            );
        }
        -(q as i128) - 1
    }
}

/// The vertex values `a0, a1, a2` interpolated with the weights `b`: their
/// weighted mean, rounded down; `None` for a degenerate triangle.
pub fn interpolate(b: Barycentric, a0: i64, a1: i64, a2: i64) -> (r: Option<i128>)
    requires
        weights_bounded(b),
    ensures
        r.is_none() <==> total(b) == 0,
        r matches Some(v) ==> v == interpolation(b, a0 as int, a1 as int, a2 as int),
{
    let area = b.w0 + b.w1 + b.w2;
    if area == 0 {
        return None;
    }
    proof {
        let m = 0x8000_0000_0000_0000int;
        let w = WEIGHT_LIMIT as int;
        assert(-m * w <= a0 * b.w0 <= m * w) by (nonlinear_arith)
            requires
                -m <= a0 <= m,
                -w <= b.w0 <= w,
        ;
        assert(-m * w <= a1 * b.w1 <= m * w) by (nonlinear_arith)
            requires
                -m <= a1 <= m,
                -w <= b.w1 <= w,
        ;
        assert(-m * w <= a2 * b.w2 <= m * w) by (nonlinear_arith)
            requires
                -m <= a2 <= m,
                -w <= b.w2 <= w,
        ;
        assert(m * w == 0x8_0000_0000_0000_0000_0000_0000_0000);
    }
    let num = a0 as i128 * b.w0 + a1 as i128 * b.w1 + a2 as i128 * b.w2;
    if area > 0 {
        Some(floor_div(num, area))
    } else {
        Some(floor_div(-num, -area))
    }
}

/// The weights of any point sum to the doubled area of the triangle.
pub proof fn lemma_weights_sum(v0: ScreenPoint, v1: ScreenPoint, v2: ScreenPoint, p: ScreenPoint)
    requires
        within_limits(v0),
        within_limits(v1),
        within_limits(v2),
        within_limits(p),
    ensures
        total(weights_at(v0, v1, v2, p)) == edge(v0, v1, v2),
{
    lemma_edge_bound(v1, v2, p);
    lemma_edge_bound(v2, v0, p);
    lemma_edge_bound(v0, v1, p);
    let (ax, ay) = (v0.x as int, v0.y as int);
    let (ux, uy) = (v1.x - ax, v1.y - ay);
    let (wx, wy) = (v2.x - ax, v2.y - ay);
    let (qx, qy) = (p.x - ax, p.y - ay);
    lemma_cross_sum(ux, uy, wx, wy, qx, qy);
    assert(edge(v1, v2, p) == (wx - ux) * (qy - uy) - (wy - uy) * (qx - ux));
    assert(edge(v2, v0, p) == (0 - wx) * (qy - wy) - (0 - wy) * (qx - wx));
    assert(edge(v0, v1, p) == ux * qy - uy * qx);
    assert(edge(v0, v1, v2) == ux * wy - uy * wx);
}

/// The weights' sum in coordinates relative to the first vertex: `u` and
/// `w` lead to the other two vertices and `q` to the point.
proof fn lemma_cross_sum(ux: int, uy: int, wx: int, wy: int, qx: int, qy: int)
    ensures
        ((wx - ux) * (qy - uy) - (wy - uy) * (qx - ux)) + ((0 - wx) * (qy - wy) - (0 - wy) * (qx
            - wx)) + (ux * qy - uy * qx) == ux * wy - uy * wx,
{
    assert((wx - ux) * (qy - uy) == wx * qy - wx * uy - ux * qy + ux * uy) by (nonlinear_arith);
    assert((wy - uy) * (qx - ux) == wy * qx - wy * ux - uy * qx + uy * ux) by (nonlinear_arith);
    assert((0 - wx) * (qy - wy) == wx * wy - wx * qy) by (nonlinear_arith);
    assert((0 - wy) * (qx - wx) == wy * wx - wy * qx) by (nonlinear_arith);
    assert(ux * uy == uy * ux) by (nonlinear_arith);
    assert(wx * wy == wy * wx) by (nonlinear_arith);
    assert(wy * ux == ux * wy) by (nonlinear_arith);
    assert(wx * uy == uy * wx) by (nonlinear_arith);
}

/// Interpolating at a vertex of a non-degenerate triangle gives back exactly
/// that vertex's own value, for each of the three vertices.
pub proof fn lemma_interpolation_at_vertices(
    v0: ScreenPoint,
    v1: ScreenPoint,
    v2: ScreenPoint,
    a0: int,
    a1: int,
    a2: int,
)
    requires
        within_limits(v0),
        within_limits(v1),
        within_limits(v2),
        edge(v0, v1, v2) != 0,
    ensures
        interpolation(weights_at(v0, v1, v2, v0), a0, a1, a2) == a0,
        interpolation(weights_at(v0, v1, v2, v1), a0, a1, a2) == a1,
        interpolation(weights_at(v0, v1, v2, v2), a0, a1, a2) == a2,
{
    let area = edge(v0, v1, v2);
    lemma_edge_bound(v0, v1, v2);
    lemma_weights_sum(v0, v1, v2, v0);
    lemma_weights_sum(v0, v1, v2, v1);
    lemma_weights_sum(v0, v1, v2, v2);
    assert(edge(v2, v0, v0) == 0) by (nonlinear_arith);
    assert(edge(v0, v1, v0) == 0) by (nonlinear_arith);
    assert(edge(v1, v2, v1) == 0) by (nonlinear_arith);
    assert(edge(v0, v1, v1) == 0) by (nonlinear_arith);
    assert(edge(v1, v2, v2) == 0) by (nonlinear_arith);
    assert(edge(v2, v0, v2) == 0) by (nonlinear_arith);
    lemma_exact_quotient(a0, area);
    lemma_exact_quotient(a1, area);
    lemma_exact_quotient(a2, area);
    assert(a0 * area + a1 * 0 + a2 * 0 == a0 * area) by (nonlinear_arith);
    assert(a0 * 0 + a1 * area + a2 * 0 == a1 * area) by (nonlinear_arith);
    assert(a0 * 0 + a1 * 0 + a2 * area == a2 * area) by (nonlinear_arith);
    assert(-(a0 * area) == a0 * (-area)) by (nonlinear_arith);
    assert(-(a1 * area) == a1 * (-area)) by (nonlinear_arith);
    assert(-(a2 * area) == a2 * (-area)) by (nonlinear_arith);
}

proof fn lemma_exact_quotient(a: int, d: int)
    requires
        d != 0,
    ensures
        d > 0 ==> (a * d) / d == a,
        d < 0 ==> (a * (-d)) / (-d) == a,
{
    if d > 0 {
        vstd::arithmetic::div_mod::lemma_div_multiples_vanish(a, d);
        assert(a * d == d * a) by (nonlinear_arith);
    } else {
        vstd::arithmetic::div_mod::lemma_div_multiples_vanish(a, -d);
        assert(a * (-d) == (-d) * a) by (nonlinear_arith);
    }
}


/// Largest width or height of a target, in pixels: every pixel's sample point
/// stays within the coordinate limits.
pub const PIXEL_LIMIT: usize = 65536;

pub open spec fn min3(a: int, b: int, c: int) -> int {
    if a <= b && a <= c {
        a
    } else if b <= c {
        b
    } else {
        c
    }
}

pub open spec fn max3(a: int, b: int, c: int) -> int {
    if a >= b && a >= c {
        a
    } else if b >= c {
        b
    } else {
        c
    }
}

/// Pixel coordinate `x` in fixed-point units.
pub open spec fn scaled(x: int) -> int {
    x * SUBPIXEL
}

/// The sample point of pixel `(x, y)`.
pub open spec fn sample_point(x: int, y: int) -> ScreenPoint {
    ScreenPoint { x: (x * SUBPIXEL) as i64, y: (y * SUBPIXEL) as i64 }
}

/// The sample point of pixel `(x, y)` lies in the triangle's bounding box.
pub open spec fn in_box(x: int, y: int, v0: ScreenPoint, v1: ScreenPoint, v2: ScreenPoint) -> bool {
    &&& min3(v0.x as int, v1.x as int, v2.x as int) <= scaled(x) <= max3(
        v0.x as int,
        v1.x as int,
        v2.x as int,
    )
    &&& min3(v0.y as int, v1.y as int, v2.y as int) <= scaled(y) <= max3(
        v0.y as int,
        v1.y as int,
        v2.y as int,
    )
}

/// Pixel `(x, y)` of a `width × height` target is drawn for the triangle.
pub open spec fn is_fragment(
    x: int,
    y: int,
    v0: ScreenPoint,
    v1: ScreenPoint,
    v2: ScreenPoint,
    width: nat,
    height: nat,
) -> bool {
    &&& 0 <= x < width
    &&& 0 <= y < height
    &&& in_box(x, y, v0, v1, v2)
    &&& covers(weights_at(v0, v1, v2, sample_point(x, y)))
}

/// `a` comes before `b` in row-major order.
pub open spec fn before(ax: int, ay: int, bx: int, by: int) -> bool {
    ay < by || (ay == by && ax < bx)
}

/// The pixel range `[start, stop)` along one axis that can hold sample points
/// of `[lo, hi]`, cut to `[0, limit)`.
fn axis_range(lo: i64, hi: i64, limit: usize) -> (r: (usize, usize))
    requires
        -COORD_LIMIT <= lo <= COORD_LIMIT,
        -COORD_LIMIT <= hi <= COORD_LIMIT,
        limit <= PIXEL_LIMIT,
    ensures
        r.1 <= limit,
        forall|x: int| 0 <= x < limit && lo <= #[trigger] scaled(x) <= hi ==> r.0 <= x < r.1,
{
    let fl_lo = floor_div(lo as i128, SUBPIXEL as i128);
    let fl_hi = floor_div(hi as i128, SUBPIXEL as i128);
    proof {
        vstd::arithmetic::div_mod::lemma_fundamental_div_mod(lo as int, SUBPIXEL as int);
        vstd::arithmetic::div_mod::lemma_fundamental_div_mod(hi as int, SUBPIXEL as int);
        assert forall|x: int| 0 <= x < limit && lo <= #[trigger] scaled(x) <= hi implies fl_lo <= x
            <= fl_hi by {
            let s = SUBPIXEL as int;
            let lo = lo as int;
            let hi = hi as int;
            let ql = lo / s;
            let qh = hi / s;
            assert(ql * s <= lo < (ql + 1) * s) by (nonlinear_arith)
                requires
                    lo == s * ql + lo % s,
                    0 <= lo % s < s,
            ;
            assert(qh * s <= hi < (qh + 1) * s) by (nonlinear_arith)
                requires
                    hi == s * qh + hi % s,
                    0 <= hi % s < s,
            ;
            assert(ql <= x) by (nonlinear_arith)
                requires
                    ql * s <= lo,
                    lo <= x * s,
                    s > 0,
            ;
            assert(x <= qh) by (nonlinear_arith)
                requires
                    qh * s <= hi,
                    x * s <= hi,
                    hi < (qh + 1) * s,
                    s > 0,
            ;
        }
    }
    let start: usize = if fl_lo < 0 {
        0
    } else if fl_lo > limit as i128 {
        limit
    } else {
        fl_lo as usize
    };
    let stop: usize = if fl_hi < 0 {
        0
    } else if fl_hi >= limit as i128 {
        limit
    } else {
        (fl_hi + 1) as usize
    };
    (start, stop)
}

/// The pixels of a `width × height` target that the triangle `v0, v1, v2`
/// covers, in row-major order, each with the vertex weights at its sample
/// point. A pixel is covered when its sample point lies in the triangle's
/// bounding box and in the closed triangle.
pub fn covered_pixels(
    v0: ScreenPoint,
    v1: ScreenPoint,
    v2: ScreenPoint,
    width: usize,
    height: usize,
) -> (r: Vec<Fragment>)
    requires
        within_limits(v0),
        within_limits(v1),
        within_limits(v2),
        width <= PIXEL_LIMIT,
        height <= PIXEL_LIMIT,
    ensures
        forall|k: int|
            0 <= k < r@.len() ==> is_fragment(
                (#[trigger] r@[k]).x as int,
                r@[k].y as int,
                v0,
                v1,
                v2,
                width as nat,
                height as nat,
            ) && r@[k].weights == weights_at(
                v0,
                v1,
                v2,
                sample_point(r@[k].x as int, r@[k].y as int),
            ),
        forall|k: int, l: int|
            0 <= k < l < r@.len() ==> before(
                r@[k].x as int,
                r@[k].y as int,
                r@[l].x as int,
                r@[l].y as int,
            ),
        forall|x: int, y: int|
            is_fragment(x, y, v0, v1, v2, width as nat, height as nat) ==> exists|k: int|
                0 <= k < r@.len() && (#[trigger] r@[k]).x == x && r@[k].y == y,
{
    let lo_x = if v0.x <= v1.x && v0.x <= v2.x {
        v0.x
    } else if v1.x <= v2.x {
        v1.x
    } else {
        v2.x
    };
    let hi_x = if v0.x >= v1.x && v0.x >= v2.x {
        v0.x
    } else if v1.x >= v2.x {
        v1.x
    } else {
        v2.x
    };
    let lo_y = if v0.y <= v1.y && v0.y <= v2.y {
        v0.y
    } else if v1.y <= v2.y {
        v1.y
    } else {
        v2.y
    };
    let hi_y = if v0.y >= v1.y && v0.y >= v2.y {
        v0.y
    } else if v1.y >= v2.y {
        v1.y
    } else {
        v2.y
    };
    let (x_start, x_stop) = axis_range(lo_x, hi_x, width);
    let (y_start, y_stop) = axis_range(lo_y, hi_y, height);
    let mut r: Vec<Fragment> = Vec::new();
    let mut y = y_start;
    if y_stop < y_start {
        return r;
    }
    while y < y_stop
        invariant
            within_limits(v0),
            within_limits(v1),
            within_limits(v2),
            width <= PIXEL_LIMIT,
            height <= PIXEL_LIMIT,
            lo_x == min3(v0.x as int, v1.x as int, v2.x as int),
            hi_x == max3(v0.x as int, v1.x as int, v2.x as int),
            lo_y == min3(v0.y as int, v1.y as int, v2.y as int),
            hi_y == max3(v0.y as int, v1.y as int, v2.y as int),
            x_stop <= width,
            y_stop <= height,
            y_start <= y <= y_stop,
            forall|x: int| 0 <= x < width && lo_x <= #[trigger] scaled(x) <= hi_x ==> x_start <= x < x_stop,
            forall|yy: int|
                0 <= yy < height && lo_y <= #[trigger] scaled(yy) <= hi_y ==> y_start <= yy < y_stop,
            forall|k: int|
                0 <= k < r@.len() ==> is_fragment(
                    (#[trigger] r@[k]).x as int,
                    r@[k].y as int,
                    v0,
                    v1,
                    v2,
                    width as nat,
                    height as nat,
                ) && r@[k].weights == weights_at(
                    v0,
                    v1,
                    v2,
                    sample_point(r@[k].x as int, r@[k].y as int),
                ) && r@[k].y < y,
            forall|k: int, l: int|
                0 <= k < l < r@.len() ==> before(
                    r@[k].x as int,
                    r@[k].y as int,
                    r@[l].x as int,
                    r@[l].y as int,
                ),
            forall|fx: int, fy: int|
                is_fragment(fx, fy, v0, v1, v2, width as nat, height as nat) && fy < y ==> exists|
                    k: int,
                | 0 <= k < r@.len() && (#[trigger] r@[k]).x == fx && r@[k].y == fy,
        decreases y_stop - y,
    {
        let mut x = x_start;
        let ghost row_start = r@.len();
        while x < x_stop
            invariant
                within_limits(v0),
                within_limits(v1),
                within_limits(v2),
                width <= PIXEL_LIMIT,
                height <= PIXEL_LIMIT,
                lo_x == min3(v0.x as int, v1.x as int, v2.x as int),
                hi_x == max3(v0.x as int, v1.x as int, v2.x as int),
                lo_y == min3(v0.y as int, v1.y as int, v2.y as int),
                hi_y == max3(v0.y as int, v1.y as int, v2.y as int),
                x_stop <= width,
                y_stop <= height,
                y_start <= y < y_stop,
                x_start <= x || x_stop <= x_start,
                forall|xx: int|
                    0 <= xx < width && lo_x <= #[trigger] scaled(xx) <= hi_x ==> x_start <= xx < x_stop,
                forall|yy: int|
                    0 <= yy < height && lo_y <= #[trigger] scaled(yy) <= hi_y ==> y_start <= yy < y_stop,
                forall|k: int|
                    0 <= k < r@.len() ==> is_fragment(
                        (#[trigger] r@[k]).x as int,
                        r@[k].y as int,
                        v0,
                        v1,
                        v2,
                        width as nat,
                        height as nat,
                    ) && r@[k].weights == weights_at(
                        v0,
                        v1,
                        v2,
                        sample_point(r@[k].x as int, r@[k].y as int),
                    ) && before(r@[k].x as int, r@[k].y as int, x as int, y as int),
                forall|k: int, l: int|
                    0 <= k < l < r@.len() ==> before(
                        r@[k].x as int,
                        r@[k].y as int,
                        r@[l].x as int,
                        r@[l].y as int,
                    ),
                forall|fx: int, fy: int|
                    is_fragment(fx, fy, v0, v1, v2, width as nat, height as nat) && before(
                        fx,
                        fy,
                        x as int,
                        y as int,
                    ) ==> exists|k: int|
                        0 <= k < r@.len() && (#[trigger] r@[k]).x == fx && r@[k].y == fy,
            decreases x_stop - x,
        {
            let px = x as i64 * SUBPIXEL;
            let py = y as i64 * SUBPIXEL;
            let p = ScreenPoint { x: px, y: py };
            let b = weights(v0, v1, v2, p);
            let boxed = lo_x <= px && px <= hi_x && lo_y <= py && py <= hi_y;
            let ghost before_len = r@.len();
            let ghost old_r = r@;
            if boxed && is_inside(b) {
                r.push(Fragment { x, y, weights: b });
                proof {
                    assert(r@[before_len as int].x == x && r@[before_len as int].y == y);
                }
            }
            proof {
                assert forall|fx: int, fy: int|
                    is_fragment(fx, fy, v0, v1, v2, width as nat, height as nat) && before(
                        fx,
                        fy,
                        x + 1,
                        y as int,
                    ) implies exists|k: int|
                    0 <= k < r@.len() && (#[trigger] r@[k]).x == fx && r@[k].y == fy by {
                    if fx == x && fy == y {
                        assert(sample_point(fx, fy) == p);
                        assert(scaled(fx) == px);
                        assert(scaled(fy) == py);
                        assert(boxed);
                        assert(r@[before_len as int].x == fx);
                    } else {
                        assert(before(fx, fy, x as int, y as int));
                        let k = choose|k: int|
                            0 <= k < old_r.len() && (#[trigger] old_r[k]).x == fx && old_r[k].y == fy;
                        assert(r@[k] == old_r[k]);
                        assert(r@[k].x == fx);
                    }
                }
            }
            x = x + 1;
        }
        proof {
            assert forall|fx: int, fy: int|
                is_fragment(fx, fy, v0, v1, v2, width as nat, height as nat) && fy < y + 1 implies exists|
                k: int,
            | 0 <= k < r@.len() && (#[trigger] r@[k]).x == fx && r@[k].y == fy by {
                if fy == y {
                    assert(scaled(fx) == fx * SUBPIXEL);
                    assert(x_start <= fx < x_stop);
                    assert(before(fx, fy, x as int, y as int));
                } else {
                    assert(before(fx, fy, x as int, y as int));
                }
            }
        }
        y = y + 1;
    }
    r
}

} // verus!
