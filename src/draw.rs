//! Scan conversion: barycentric coverage, depth interpolation and the z-buffered triangle fill.
use crate::canvas::{
    canvas_dims, canvas_height, canvas_pixels, canvas_width, draw_pixel, flipped_index,
    lemma_frame_index, lemma_frame_index_distinct, Canvas, Color,
};
use crate::linalg::{cross3, dot_defined, dot_value};
use vstd::prelude::*;
use vstd::std_specs::ops::{AddSpec, MulSpec};

verus! {

/// A pixel on the screen.
pub type Point = [i32; 2];

/// A triangle in screen space: three vertices of `(x, y, depth)`.
pub type Triangle = [[i32; 3]; 3];

/// Barycentric weights of a point in a triangle, as exact fractions over a common positive
/// denominator: the point's weight for vertex `i` is `wi / total`.
#[derive(Clone, Copy, Debug, PartialEq, Eq)]
pub struct Barycentric {
    pub w0: i128,
    pub w1: i128,
    pub w2: i128,
    pub total: i128,
}

/// Twice the signed area of the triangle `(a, b, c)`: positive when it turns counterclockwise.
pub open spec fn orient(ax: int, ay: int, bx: int, by: int, cx: int, cy: int) -> int {
    (bx - ax) * (cy - ay) - (by - ay) * (cx - ax)
}

/// Twice the signed area of a screen triangle.
pub open spec fn area(t: Triangle) -> int {
    orient(t[0][0] as int, t[0][1] as int, t[1][0] as int, t[1][1] as int, t[2][0] as int, t[2][1] as int)
}

/// Twice the signed area of the triangle that `p` forms with the two vertices other than `i`,
/// `p` standing in the place of vertex `i`.
pub open spec fn sub_area(t: Triangle, p: Point, i: int) -> int {
    let v0 = if i == 0 { p } else { [t[0][0], t[0][1]] };
    let v1 = if i == 1 { p } else { [t[1][0], t[1][1]] };
    let v2 = if i == 2 { p } else { [t[2][0], t[2][1]] };
    orient(v0[0] as int, v0[1] as int, v1[0] as int, v1[1] as int, v2[0] as int, v2[1] as int)
}

/// Twice the unsigned area of a screen triangle.
pub open spec fn abs_area(t: Triangle) -> int {
    if area(t) > 0 { area(t) } else { -area(t) }
}

/// The exact weight numerator of vertex `i` for point `p`, over the denominator `abs_area(t)`:
/// the sub-area taken with the orientation of `t`.
pub open spec fn weight(t: Triangle, p: Point, i: int) -> int {
    if area(t) > 0 { sub_area(t, p, i) } else { -sub_area(t, p, i) }
}

/// `p` lies in the closed triangle `t`, and `t` has non-zero area.
pub open spec fn covers(t: Triangle, p: Point) -> bool {
    area(t) != 0 && weight(t, p, 0) >= 0 && weight(t, p, 1) >= 0 && weight(t, p, 2) >= 0
}

/// The exact barycentric weights of `p` in `t`, over the denominator `|area(t)|`.
pub open spec fn barycentric_of(t: Triangle, p: Point) -> Barycentric {
    Barycentric {
        w0: weight(t, p, 0) as i128,
        w1: weight(t, p, 1) as i128,
        w2: weight(t, p, 2) as i128,
        total: abs_area(t) as i128,
    }
}

proof fn lemma_mul_bound2(a: int, b: int, ka: int, kb: int)
    requires
        -ka <= a <= ka,
        -kb <= b <= kb,
    ensures
        -(ka * kb) <= a * b <= ka * kb,
{
    assert(-(ka * kb) <= a * b <= ka * kb) by (nonlinear_arith)
        requires
            -ka <= a <= ka,
            -kb <= b <= kb,
    ;
}

proof fn lemma_mul_bound(a: int, b: int, k: int)
    requires
        -k <= a <= k,
        -k <= b <= k,
    ensures
        -(k * k) <= a * b <= k * k,
{
    assert(-(k * k) <= a * b <= k * k) by (nonlinear_arith)
        requires
            -k <= a <= k,
            -k <= b <= k,
    ;
}

/// Every product of two coordinate differences of `i32` values stays within `2^64`.
proof fn lemma_diff_products(a: int, b: int)
    requires
        -0x1_0000_0000 < a < 0x1_0000_0000,
        -0x1_0000_0000 < b < 0x1_0000_0000,
    ensures
        -0x1_0000_0000_0000_0000 <= a * b <= 0x1_0000_0000_0000_0000,
{
    lemma_mul_bound(a, b, 0x1_0000_0000);
}

proof fn lemma_orient_expand(ax: int, ay: int, bx: int, by: int, cx: int, cy: int)
    ensures
        orient(ax, ay, bx, by, cx, cy) == bx * cy - bx * ay - ax * cy - by * cx + by * ax + ay * cx,
{
    assert((bx - ax) * (cy - ay) - (by - ay) * (cx - ax) == bx * cy - bx * ay - ax * cy - by * cx
        + by * ax + ay * cx) by (nonlinear_arith);
}

/// The area of a triangle is the sum of the areas of the three triangles that a point forms
/// with its edges.
proof fn lemma_orient_split(ax: int, ay: int, bx: int, by: int, cx: int, cy: int, px: int, py: int)
    ensures
        orient(ax, ay, bx, by, cx, cy) == orient(px, py, bx, by, cx, cy) + orient(ax, ay, px, py, cx, cy)
            + orient(ax, ay, bx, by, px, py),
{
    lemma_orient_expand(ax, ay, bx, by, cx, cy);
    lemma_orient_expand(px, py, bx, by, cx, cy);
    lemma_orient_expand(ax, ay, px, py, cx, cy);
    lemma_orient_expand(ax, ay, bx, by, px, py);
}

/// Barycentric weights of `p` in `t`, or `None` when `t` has zero area or `p` lies outside it.
pub fn barycentric(t: Triangle, p: Point) -> (r: Option<Barycentric>)
    ensures
        r == if covers(t, p) {
            Some(barycentric_of(t, p))
        } else {
            None
        },
{
    let a: [i128; 3] = [
        t[2][0] as i128 - t[0][0] as i128,
        t[1][0] as i128 - t[0][0] as i128,
        t[0][0] as i128 - p[0] as i128,
    ];
    let b: [i128; 3] = [
        t[2][1] as i128 - t[0][1] as i128,
        t[1][1] as i128 - t[0][1] as i128,
        t[0][1] as i128 - p[1] as i128,
    ];
    proof {
        assert forall|i: int, j: int| 0 <= i < 3 && 0 <= j < 3 implies -0x1_0000_0000_0000_0000
            <= #[trigger] (a[i] * b[j]) <= 0x1_0000_0000_0000_0000 by {
            lemma_diff_products(a[i] as int, b[j] as int);
        }
    }
    let u = cross3(a, b);
    proof {
        let (x0, y0) = (t[0][0] as int, t[0][1] as int);
        let (x1, y1) = (t[1][0] as int, t[1][1] as int);
        let (x2, y2) = (t[2][0] as int, t[2][1] as int);
        let (px, py) = (p[0] as int, p[1] as int);
        assert(u[2] == -area(t)) by (nonlinear_arith)
            requires
                u[2] == a[0] * b[1] - a[1] * b[0],
                a[0] == x2 - x0, a[1] == x1 - x0, b[0] == y2 - y0, b[1] == y1 - y0,
                area(t) == (x1 - x0) * (y2 - y0) - (y1 - y0) * (x2 - x0),
        ;
        assert(u[0] == -sub_area(t, p, 2)) by (nonlinear_arith)
            requires
                u[0] == a[1] * b[2] - a[2] * b[1],
                a[1] == x1 - x0, a[2] == x0 - px, b[1] == y1 - y0, b[2] == y0 - py,
                sub_area(t, p, 2) == (x1 - x0) * (py - y0) - (y1 - y0) * (px - x0),
        ;
        assert(u[1] == -sub_area(t, p, 1)) by (nonlinear_arith)
            requires
                u[1] == a[2] * b[0] - a[0] * b[2],
                a[0] == x2 - x0, a[2] == x0 - px, b[0] == y2 - y0, b[2] == y0 - py,
                sub_area(t, p, 1) == (px - x0) * (y2 - y0) - (py - y0) * (x2 - x0),
        ;
        lemma_orient_split(x0, y0, x1, y1, x2, y2, px, py);
        assert(sub_area(t, p, 0) == orient(px, py, x1, y1, x2, y2));
        assert(sub_area(t, p, 1) == orient(x0, y0, px, py, x2, y2));
        assert(sub_area(t, p, 2) == orient(x0, y0, x1, y1, px, py));
        assert(u[2] - u[0] - u[1] == -sub_area(t, p, 0));
    }
    if u[2] == 0 {
        None
    } else {
        let weights: Barycentric = if u[2] > 0 {
            Barycentric { w0: u[2] - u[0] - u[1], w1: u[1], w2: u[0], total: u[2] }
        } else {
            Barycentric { w0: u[0] + u[1] - u[2], w1: -u[1], w2: -u[0], total: -u[2] }
        };
        if weights.w0 >= 0 && weights.w1 >= 0 && weights.w2 >= 0 {
            Some(weights)
        } else {
            None
        }
    }
}

/// With the point at the origin, the sub-areas weight the vertices to zero.
#[verifier::rlimit(20)]
proof fn lemma_weighted_vertices(a0: int, b0: int, a1: int, b1: int, a2: int, b2: int)
    ensures
        (a1 * b2 - b1 * a2) * a0 + (a2 * b0 - b2 * a0) * a1 + (a0 * b1 - b0 * a1) * a2 == 0,
        (a1 * b2 - b1 * a2) * b0 + (a2 * b0 - b2 * a0) * b1 + (a0 * b1 - b0 * a1) * b2 == 0,
{
    assert((a1 * b2 - b1 * a2) * a0 + (a2 * b0 - b2 * a0) * a1 + (a0 * b1 - b0 * a1) * a2 == 0)
        by (nonlinear_arith);
    assert((a1 * b2 - b1 * a2) * b0 + (a2 * b0 - b2 * a0) * b1 + (a0 * b1 - b0 * a1) * b2 == 0)
        by (nonlinear_arith);
}

/// The barycentric weights of a point in a triangle of non-zero area are non-negative, add up
/// to one, and locate the point: the weighted sum of the vertices is the point itself.
pub proof fn lemma_barycentric_partition(t: Triangle, p: Point)
    requires
        covers(t, p),
    ensures
        ({
            let (w0, w1, w2) = (weight(t, p, 0), weight(t, p, 1), weight(t, p, 2));
            let total = abs_area(t);
            &&& total > 0
            &&& w0 >= 0 && w1 >= 0 && w2 >= 0
            &&& w0 + w1 + w2 == total
            &&& w0 * t[0][0] + w1 * t[1][0] + w2 * t[2][0] == total * p[0]
            &&& w0 * t[0][1] + w1 * t[1][1] + w2 * t[2][1] == total * p[1]
        }),
{
    let (x0, y0) = (t[0][0] as int, t[0][1] as int);
    let (x1, y1) = (t[1][0] as int, t[1][1] as int);
    let (x2, y2) = (t[2][0] as int, t[2][1] as int);
    let (px, py) = (p[0] as int, p[1] as int);
    lemma_orient_split(x0, y0, x1, y1, x2, y2, px, py);
    let (s0, s1, s2) = (sub_area(t, p, 0), sub_area(t, p, 1), sub_area(t, p, 2));
    assert(s0 == orient(px, py, x1, y1, x2, y2));
    assert(s1 == orient(x0, y0, px, py, x2, y2));
    assert(s2 == orient(x0, y0, x1, y1, px, py));
    lemma_weighted_vertices(x0 - px, y0 - py, x1 - px, y1 - py, x2 - px, y2 - py);
    assert(s0 == (x1 - px) * (y2 - py) - (y1 - py) * (x2 - px));
    assert(s1 == (x2 - px) * (y0 - py) - (y2 - py) * (x0 - px)) by (nonlinear_arith)
        requires
            s1 == (px - x0) * (y2 - y0) - (py - y0) * (x2 - x0),
    ;
    assert(s2 == (x0 - px) * (y1 - py) - (y0 - py) * (x1 - px)) by (nonlinear_arith)
        requires
            s2 == (x1 - x0) * (py - y0) - (y1 - y0) * (px - x0),
    ;
    assert(s0 * x0 + s1 * x1 + s2 * x2 == s0 * (x0 - px) + s1 * (x1 - px) + s2 * (x2 - px) + (s0 + s1 + s2) * px) by (nonlinear_arith);
    assert(s0 * y0 + s1 * y1 + s2 * y2 == s0 * (y0 - py) + s1 * (y1 - py) + s2 * (y2 - py) + (s0 + s1 + s2) * py) by (nonlinear_arith);
    if area(t) <= 0 {
        assert((-s0) * x0 + (-s1) * x1 + (-s2) * x2 == -(s0 * x0 + s1 * x1 + s2 * x2)) by (nonlinear_arith);
        assert((-s0) * y0 + (-s1) * y1 + (-s2) * y2 == -(s0 * y0 + s1 * y1 + s2 * y2)) by (nonlinear_arith);
        assert((-area(t)) * px == -(area(t) * px)) by (nonlinear_arith);
        assert((-area(t)) * py == -(area(t) * py)) by (nonlinear_arith);
    }
}

/// Magnitudes of weights and areas of triangles with `i32` coordinates stay below `2^66`.
proof fn lemma_weight_bounds(t: Triangle, p: Point)
    ensures
        -0x4_0000_0000_0000_0000 <= area(t) <= 0x4_0000_0000_0000_0000,
        -0x4_0000_0000_0000_0000 <= weight(t, p, 0) <= 0x4_0000_0000_0000_0000,
        -0x4_0000_0000_0000_0000 <= weight(t, p, 1) <= 0x4_0000_0000_0000_0000,
        -0x4_0000_0000_0000_0000 <= weight(t, p, 2) <= 0x4_0000_0000_0000_0000,
{
    let (x0, y0) = (t[0][0] as int, t[0][1] as int);
    let (x1, y1) = (t[1][0] as int, t[1][1] as int);
    let (x2, y2) = (t[2][0] as int, t[2][1] as int);
    let (px, py) = (p[0] as int, p[1] as int);
    lemma_diff_products(x1 - x0, y2 - y0);
    lemma_diff_products(y1 - y0, x2 - x0);
    lemma_diff_products(x1 - px, y2 - py);
    lemma_diff_products(y1 - py, x2 - px);
    lemma_diff_products(px - x0, y2 - y0);
    lemma_diff_products(py - y0, x2 - x0);
    lemma_diff_products(x1 - x0, py - y0);
    lemma_diff_products(y1 - y0, px - x0);
    assert(sub_area(t, p, 0) == orient(px, py, x1, y1, x2, y2));
    assert(sub_area(t, p, 1) == orient(x0, y0, px, py, x2, y2));
    assert(sub_area(t, p, 2) == orient(x0, y0, x1, y1, px, py));
}

/// The interpolated depth `(z0 w0 + z1 w1 + z2 w2) / total`, rounded to the nearest integer
/// with halves rounded up, and clamped to the range of `u16`.
pub open spec fn depth_of(t: Triangle, b: Barycentric) -> int {
    let twice = 2 * (t[0][2] * b.w0 + t[1][2] * b.w1 + t[2][2] * b.w2) + b.total;
    if twice < 0 {
        0
    } else if twice / (2 * b.total) > 0xffff {
        0xffff
    } else {
        twice / (2 * b.total)
    }
}

pub open spec fn weight_limit() -> int {
    0x4_0000_0000_0000_0000
}

pub open spec fn weights_bounded(b: Barycentric) -> bool {
    &&& 0 < b.total <= weight_limit()
    &&& -weight_limit() <= b.w0 <= weight_limit()
    &&& -weight_limit() <= b.w1 <= weight_limit()
    &&& -weight_limit() <= b.w2 <= weight_limit()
}

/// Depth of the point with weights `b`, as `depth_of` states it.
fn interpolate_depth(t: Triangle, b: Barycentric) -> (r: u16)
    requires
        weights_bounded(b),
    ensures
        r == depth_of(t, b),
{
    proof {
        lemma_mul_bound2(t[0][2] as int, b.w0 as int, 0x8000_0000, weight_limit());
        lemma_mul_bound2(t[1][2] as int, b.w1 as int, 0x8000_0000, weight_limit());
        lemma_mul_bound2(t[2][2] as int, b.w2 as int, 0x8000_0000, weight_limit());
    }
    let zs: [i128; 3] = [t[0][2] as i128, t[1][2] as i128, t[2][2] as i128];
    let ws: [i128; 3] = [b.w0, b.w1, b.w2];
    proof {
        let (p0, p1, p2) = (zs[0] * ws[0], zs[1] * ws[1], zs[2] * ws[2]);
        assert(zs[0].mul_spec(ws[0]) == p0);
        assert(zs[1].mul_spec(ws[1]) == p1);
        assert(zs[2].mul_spec(ws[2]) == p2);
        assert(zs[0].mul_spec(ws[0]).add_spec(zs[1].mul_spec(ws[1])) == p0 + p1);
        assert(dot_defined(zs, ws));
        assert(dot_value(zs, ws) == p0 + p1 + p2);
    }
    let num = vecmath::vec3_dot(zs, ws);
    let twice = 2 * num + b.total;
    if twice < 0 {
        0
    } else {
        let q = twice / (2 * b.total);
        if q > 0xffff {
            0xffff
        } else {
            q as u16
        }
    }
}

/// What the rasterizer hands to the shading stage for one covered pixel: its position, its
/// depth, and its exact barycentric weights.
#[derive(Clone, Copy, Debug, PartialEq, Eq)]
pub struct Fragment {
    pub x: i32,
    pub y: i32,
    pub depth: u16,
    pub weights: Barycentric,
}

/// The fragment of `t` at pixel `(x, y)`; meaningful where `t` covers the pixel.
pub open spec fn fragment_of(t: Triangle, x: i32, y: i32) -> Fragment {
    let b = barycentric_of(t, [x, y]);
    Fragment { x, y, depth: depth_of(t, b) as u16, weights: b }
}

pub open spec fn min3(a: int, b: int, c: int) -> int {
    if a <= b && a <= c {
        a
    } else if b <= c {
        b
    } else {
        c
    }
}

pub open spec fn max3(a: int, b: int, c: int) -> int {
    if a >= b && a >= c {
        a
    } else if b >= c {
        b
    } else {
        c
    }
}

/// First pixel of the bounding box of `t` along axis `j` (0 for x, 1 for y), on a screen
/// `size` pixels long: the least vertex coordinate, clamped to `[0, size - 1]`.
pub open spec fn box_lo(t: Triangle, j: int, size: int) -> int {
    let m = min3(t[0][j] as int, t[1][j] as int, t[2][j] as int);
    let c = if m < size - 1 { m } else { size - 1 };
    if c > 0 { c } else { 0 }
}

/// End of the bounding box of `t` along axis `j`, itself left out: the greatest vertex
/// coordinate, clamped to `[0, size - 1]`.
pub open spec fn box_hi(t: Triangle, j: int, size: int) -> int {
    let m = max3(t[0][j] as int, t[1][j] as int, t[2][j] as int);
    let c = if m > 0 { m } else { 0 };
    if c < size - 1 { c } else { size - 1 }
}

/// Pixel `(x, y)` lies in the bounding box that the rasterizer scans for `t` on a `w` by `h`
/// screen.
pub open spec fn in_box(t: Triangle, w: int, h: int, x: int, y: int) -> bool {
    box_lo(t, 0, w) <= x < box_hi(t, 0, w) && box_lo(t, 1, h) <= y < box_hi(t, 1, h)
}

/// Least of three coordinates, then clamped to `[0, last]`.
fn low_clamp(a: i32, b: i32, c: i32, last: i32) -> (r: i32)
    requires
        last >= -1,
    ensures
        r == ({
            let m = min3(a as int, b as int, c as int);
            let c = if m < last { m } else { last as int };
            if c > 0 { c } else { 0 }
        }),
{
    let mut m = last;
    if a < m {
        m = a;
    }
    if b < m {
        m = b;
    }
    if c < m {
        m = c;
    }
    if m < 0 {
        0
    } else {
        m
    }
}

/// Greatest of three coordinates, then clamped to `[0, last]`.
fn high_clamp(a: i32, b: i32, c: i32, last: i32) -> (r: i32)
    requires
        last >= -1,
    ensures
        r == ({
            let m = max3(a as int, b as int, c as int);
            let c = if m > 0 { m } else { 0 };
            if c < last { c } else { last as int }
        }),
{
    let mut m: i32 = 0;
    if a > m {
        m = a;
    }
    if b > m {
        m = b;
    }
    if c > m {
        m = c;
    }
    if m > last {
        last
    } else {
        m
    }
}

/// The pixel at `(x, y)` of a `w` by `h` frame is the same in both states: its depth at
/// `y * w + x`, its color at the row-flipped position.
pub open spec fn unchanged_at(
    w: int,
    h: int,
    old_px: Seq<Color>,
    old_z: Seq<u16>,
    new_px: Seq<Color>,
    new_z: Seq<u16>,
    x: int,
    y: int,
) -> bool {
    &&& new_z[y * w + x] == old_z[y * w + x]
    &&& new_px[flipped_index(w, h, x, y)] == old_px[flipped_index(w, h, x, y)]
}

/// The outcome at pixel `(x, y)` once the rasterizer has tried it for `t`. Where `t` covers the
/// pixel and its depth is greater than the stored one, the shader was called with the
/// fragment: either it gave a color, which was stored with the depth, or it gave none and the
/// pixel was left as it was. Elsewhere the pixel was left as it was.
pub open spec fn pixel_shaded<F: Fn(Fragment) -> Option<Color>>(
    shade: F,
    t: Triangle,
    w: int,
    h: int,
    old_px: Seq<Color>,
    old_z: Seq<u16>,
    new_px: Seq<Color>,
    new_z: Seq<u16>,
    x: int,
    y: int,
) -> bool {
    let i = y * w + x;
    let k = flipped_index(w, h, x, y);
    let f = fragment_of(t, x as i32, y as i32);
    if covers(t, [x as i32, y as i32]) && old_z[i] < f.depth {
        ||| new_z[i] == f.depth && shade.ensures((f,), Some(new_px[k]))
        ||| new_z[i] == old_z[i] && new_px[k] == old_px[k] && shade.ensures((f,), None)
    } else {
        unchanged_at(w, h, old_px, old_z, new_px, new_z, x, y)
    }
}

/// The outcome at pixel `(x, y)` of drawing `t`: pixels outside the bounding box are left as
/// they were, the others are shaded.
pub open spec fn pixel_drawn<F: Fn(Fragment) -> Option<Color>>(
    shade: F,
    t: Triangle,
    w: int,
    h: int,
    old_px: Seq<Color>,
    old_z: Seq<u16>,
    new_px: Seq<Color>,
    new_z: Seq<u16>,
    x: int,
    y: int,
) -> bool {
    if in_box(t, w, h, x, y) {
        pixel_shaded(shade, t, w, h, old_px, old_z, new_px, new_z, x, y)
    } else {
        unchanged_at(w, h, old_px, old_z, new_px, new_z, x, y)
    }
}

/// Drawing `t` on a `w` by `h` frame took the colors `old_px` and depths `old_z` to `new_px`
/// and `new_z`.
pub open spec fn triangle_drawn<F: Fn(Fragment) -> Option<Color>>(
    shade: F,
    t: Triangle,
    w: int,
    h: int,
    old_px: Seq<Color>,
    old_z: Seq<u16>,
    new_px: Seq<Color>,
    new_z: Seq<u16>,
) -> bool {
    &&& new_px.len() == old_px.len()
    &&& new_z.len() == old_z.len()
    &&& forall|x: int, y: int|
        0 <= x < w && 0 <= y < h ==> #[trigger] pixel_drawn(
            shade,
            t,
            w,
            h,
            old_px,
            old_z,
            new_px,
            new_z,
            x,
            y,
        )
}

/// Shades one pixel of the frame: barycentric test, depth test, shader call, and the writes.
fn shade_pixel<F: Fn(Fragment) -> Option<Color>>(
    image: &mut Canvas,
    zbuffer: &mut Vec<u16>,
    t: Triangle,
    shade: &F,
    w: i32,
    h: i32,
    x: i32,
    y: i32,
)
    requires
        forall|f: Fragment| shade.requires((f,)),
        canvas_dims(*old(image)) == (w as u32, h as u32),
        canvas_pixels(*old(image)).len() == w * h,
        old(zbuffer)@.len() == w * h,
        0 <= x < w,
        0 <= y < h,
    ensures
        canvas_dims(*final(image)) == canvas_dims(*old(image)),
        canvas_pixels(*final(image)).len() == w * h,
        final(zbuffer)@.len() == w * h,
        pixel_shaded(
            *shade,
            t,
            w as int,
            h as int,
            canvas_pixels(*old(image)),
            old(zbuffer)@,
            canvas_pixels(*final(image)),
            final(zbuffer)@,
            x as int,
            y as int,
        ),
        forall|i: int|
            0 <= i < w * h && i != y * w + x ==> final(zbuffer)@[i] == old(zbuffer)@[i],
        forall|i: int|
            0 <= i < w * h && i != flipped_index(w as int, h as int, x as int, y as int)
                ==> canvas_pixels(*final(image))[i] == canvas_pixels(*old(image))[i],
{
    proof {
        lemma_frame_index(w as int, h as int, x as int, y as int);
    }
    let p: Point = [x, y];
    match barycentric(t, p) {
        None => {},
        Some(b) => {
            proof {
                lemma_weight_bounds(t, p);
                lemma_barycentric_partition(t, p);
            }
            let z = interpolate_depth(t, b);
            // the depth buffer is addressable, so every pixel position fits in usize
            let _len = zbuffer.len();
            let zi = (y as usize) * (w as usize) + (x as usize);
            if zbuffer[zi] < z {
                let f = Fragment { x, y, depth: z, weights: b };
                match shade(f) {
                    Some(pixel) => {
                        zbuffer[zi] = z;
                        draw_pixel(image, x as u32, y as u32, pixel);
                    },
                    None => {},
                }
            }
        },
    }
}

/// Where the scan of the bounding box stands: pixels of the box before `(cx, cy)` in row order
/// have been drawn, every other pixel is as it was.
pub open spec fn scanned_up_to<F: Fn(Fragment) -> Option<Color>>(
    shade: F,
    t: Triangle,
    w: int,
    h: int,
    old_px: Seq<Color>,
    old_z: Seq<u16>,
    new_px: Seq<Color>,
    new_z: Seq<u16>,
    cx: int,
    cy: int,
    x: int,
    y: int,
) -> bool {
    if in_box(t, w, h, x, y) && (y < cy || (y == cy && x < cx)) {
        pixel_shaded(shade, t, w, h, old_px, old_z, new_px, new_z, x, y)
    } else {
        unchanged_at(w, h, old_px, old_z, new_px, new_z, x, y)
    }
}

/// Rasterizes the screen-space triangle `t` into `image` and `zbuffer`.
///
/// Every pixel of the triangle's bounding box (clamped to the screen, its last row and column
/// left out) that the triangle covers, and whose rounded interpolated depth is greater than the
/// one in `zbuffer`, is handed to `shade` as a `Fragment`. Where `shade` gives a color, the
/// pixel takes it (row 0 at the bottom of the image) and its depth is stored. `zbuffer` holds
/// one depth per pixel, row-major with row 0 at the bottom.
pub fn draw_triangle<F: Fn(Fragment) -> Option<Color>>(
    image: &mut Canvas,
    t: Triangle,
    shade: F,
    zbuffer: &mut Vec<u16>,
)
    requires
        forall|f: Fragment| shade.requires((f,)),
        canvas_width(*old(image)) <= i32::MAX,
        canvas_height(*old(image)) <= i32::MAX,
        old(zbuffer)@.len() == canvas_width(*old(image)) * canvas_height(*old(image)),
    ensures
        canvas_dims(*final(image)) == canvas_dims(*old(image)),
        triangle_drawn(
            shade,
            t,
            canvas_width(*old(image)),
            canvas_height(*old(image)),
            canvas_pixels(*old(image)),
            old(zbuffer)@,
            canvas_pixels(*final(image)),
            final(zbuffer)@,
        ),
{
    let (wu, hu) = image.dimensions();
    let w = wu as i32;
    let h = hu as i32;
    let ghost wi = w as int;
    let ghost hi = h as int;
    let ghost px0 = canvas_pixels(*image);
    let ghost z0 = zbuffer@;
    let lo_x = low_clamp(t[0][0], t[1][0], t[2][0], w - 1);
    let hi_x = high_clamp(t[0][0], t[1][0], t[2][0], w - 1);
    let lo_y = low_clamp(t[0][1], t[1][1], t[2][1], h - 1);
    let hi_y = high_clamp(t[0][1], t[1][1], t[2][1], h - 1);
    assert(lo_x == box_lo(t, 0, wi) && hi_x == box_hi(t, 0, wi));
    assert(lo_y == box_lo(t, 1, hi) && hi_y == box_hi(t, 1, hi));
    let mut y = lo_y;
    while y < hi_y
        invariant
            lo_y <= y,
            y <= hi_y || y == lo_y,
            0 <= lo_x,
            hi_x < w || hi_x <= 0,
            hi_y < h || hi_y <= 0,
            wi == canvas_width(*old(image)),
            hi == canvas_height(*old(image)),
            wi == w,
            hi == h,
            canvas_dims(*old(image)) == (w as u32, h as u32),
            lo_x == box_lo(t, 0, wi),
            hi_x == box_hi(t, 0, wi),
            lo_y == box_lo(t, 1, hi),
            hi_y == box_hi(t, 1, hi),
            forall|f: Fragment| shade.requires((f,)),
            canvas_dims(*image) == canvas_dims(*old(image)),
            canvas_pixels(*image).len() == wi * hi,
            zbuffer@.len() == wi * hi,
            px0.len() == wi * hi,
            z0.len() == wi * hi,
            forall|px: int, py: int|
                0 <= px < wi && 0 <= py < hi ==> #[trigger] scanned_up_to(
                    shade,
                    t,
                    wi,
                    hi,
                    px0,
                    z0,
                    canvas_pixels(*image),
                    zbuffer@,
                    lo_x as int,
                    y as int,
                    px,
                    py,
                ),
        decreases hi_y - y,
    {
        let mut x = lo_x;
        while x < hi_x
            invariant
                lo_y <= y < hi_y,
                lo_x <= x,
                x <= hi_x || x == lo_x,
                0 <= lo_x,
                hi_x < w || hi_x <= 0,
                hi_y < h || hi_y <= 0,
                wi == canvas_width(*old(image)),
                hi == canvas_height(*old(image)),
                wi == w,
                hi == h,
                canvas_dims(*old(image)) == (w as u32, h as u32),
                lo_x == box_lo(t, 0, wi),
                hi_x == box_hi(t, 0, wi),
                lo_y == box_lo(t, 1, hi),
                hi_y == box_hi(t, 1, hi),
                forall|f: Fragment| shade.requires((f,)),
                canvas_dims(*image) == canvas_dims(*old(image)),
                canvas_pixels(*image).len() == wi * hi,
                zbuffer@.len() == wi * hi,
                px0.len() == wi * hi,
                z0.len() == wi * hi,
                forall|px: int, py: int|
                    0 <= px < wi && 0 <= py < hi ==> #[trigger] scanned_up_to(
                        shade,
                        t,
                        wi,
                        hi,
                        px0,
                        z0,
                        canvas_pixels(*image),
                        zbuffer@,
                        x as int,
                        y as int,
                        px,
                        py,
                    ),
            decreases hi_x - x,
        {
            let ghost px1 = canvas_pixels(*image);
            let ghost z1 = zbuffer@;
            shade_pixel(image, zbuffer, t, &shade, w, h, x, y);
            proof {
                let px2 = canvas_pixels(*image);
                let z2 = zbuffer@;
                assert forall|px: int, py: int| 0 <= px < wi && 0 <= py < hi implies #[trigger]
                    scanned_up_to(shade, t, wi, hi, px0, z0, px2, z2, x + 1, y as int, px, py) by {
                    assert(scanned_up_to(shade, t, wi, hi, px0, z0, px1, z1, x as int, y as int, px, py));
                    lemma_frame_index(wi, hi, px, py);
                    if px != x || py != y {
                        lemma_frame_index_distinct(wi, hi, px, py, x as int, y as int);
                    }
                }
            }
            x = x + 1;
        }
        proof {
            assert forall|px: int, py: int| 0 <= px < wi && 0 <= py < hi implies #[trigger]
                scanned_up_to(shade, t, wi, hi, px0, z0, canvas_pixels(*image), zbuffer@, lo_x as int, y + 1, px, py) by {
                assert(scanned_up_to(shade, t, wi, hi, px0, z0, canvas_pixels(*image), zbuffer@, x as int, y as int, px, py));
            }
        }
        y = y + 1;
    }
    proof {
        assert forall|px: int, py: int| 0 <= px < wi && 0 <= py < hi implies #[trigger]
            pixel_drawn(shade, t, wi, hi, px0, z0, canvas_pixels(*image), zbuffer@, px, py) by {
            assert(scanned_up_to(shade, t, wi, hi, px0, z0, canvas_pixels(*image), zbuffer@, lo_x as int, y as int, px, py));
        }
    }
}

} // verus!
