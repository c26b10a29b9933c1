//! Line drawing with integer error accumulation.
use crate::canvas::{
    canvas_dims, canvas_height, canvas_pixels, canvas_width, draw_pixel, flipped_index,
    lemma_frame_index, lemma_frame_index_distinct, Canvas, Color,
};
use vstd::prelude::*;

verus! {

pub open spec fn magnitude(a: int) -> int {
    if a < 0 { -a } else { a }
}

/// The line runs more along y than along x; it then steps one pixel per row, else one pixel
/// per column.
pub open spec fn steep(x0: int, y0: int, x1: int, y1: int) -> bool {
    magnitude(x1 - x0) < magnitude(y1 - y0)
}

/// A point as `(major, minor)` coordinates: the major axis is the one the line steps along.
pub open spec fn major_minor(x0: int, y0: int, x1: int, y1: int, x: int, y: int) -> (int, int) {
    if steep(x0, y0, x1, y1) { (y, x) } else { (x, y) }
}

/// The endpoints in `(major, minor)` coordinates, the one with the smaller major coordinate
/// first: `(p0, q0, p1, q1)`.
pub open spec fn line_ends(x0: int, y0: int, x1: int, y1: int) -> (int, int, int, int) {
    let (a0, b0) = major_minor(x0, y0, x1, y1, x0, y0);
    let (a1, b1) = major_minor(x0, y0, x1, y1, x1, y1);
    if a0 < a1 { (a0, b0, a1, b1) } else { (a1, b1, a0, b0) }
}

/// Minor coordinate of the line's pixel `k` steps after its first: `q0` moved towards `q1` by
/// `k dq / dp`, rounded to the nearest integer with halves rounded down.
pub open spec fn line_minor(x0: int, y0: int, x1: int, y1: int, k: int) -> int {
    let (p0, q0, p1, q1) = line_ends(x0, y0, x1, y1);
    let dp = p1 - p0;
    let dq = magnitude(q1 - q0);
    let m = if dp == 0 { 0 } else { (2 * dq * k + dp - 1) / (2 * dp) };
    if q0 < q1 { q0 + m } else { q0 - m }
}

/// `(x, y)` is one of the first `n` pixels of the line.
pub open spec fn on_line_within(x0: int, y0: int, x1: int, y1: int, n: int, x: int, y: int) -> bool {
    let (p, q) = major_minor(x0, y0, x1, y1, x, y);
    let (p0, q0, p1, q1) = line_ends(x0, y0, x1, y1);
    p0 <= p <= p1 && p < p0 + n && q == line_minor(x0, y0, x1, y1, p - p0)
}

/// `(x, y)` is a pixel of the line from `(x0, y0)` to `(x1, y1)`: one per step along the major
/// axis, from end to end.
pub open spec fn on_line(x0: int, y0: int, x1: int, y1: int, x: int, y: int) -> bool {
    let (p0, q0, p1, q1) = line_ends(x0, y0, x1, y1);
    on_line_within(x0, y0, x1, y1, p1 - p0 + 1, x, y)
}

/// The colors of a `w` by `h` frame after the first `n` pixels of the line were drawn over `old`.
pub open spec fn line_drawn_within(
    x0: int,
    y0: int,
    x1: int,
    y1: int,
    n: int,
    color: Color,
    w: int,
    h: int,
    old: Seq<Color>,
    new: Seq<Color>,
) -> bool {
    forall|x: int, y: int|
        0 <= x < w && 0 <= y < h ==> new[flipped_index(w, h, x, y)] == if #[trigger] on_line_within(
            x0,
            y0,
            x1,
            y1,
            n,
            x,
            y,
        ) {
            color
        } else {
            old[flipped_index(w, h, x, y)]
        }
}

/// The number `m` with `-dp < 2 k dq - 2 m dp <= dp` is the rounded quotient of `line_minor`.
proof fn lemma_rounded_step(k: int, dp: int, dq: int, m: int)
    requires
        dp > 0,
        -dp < 2 * dq * k - 2 * dp * m <= dp,
    ensures
        m == (2 * dq * k + dp - 1) / (2 * dp),
{
    let x = 2 * dq * k + dp - 1;
    let r = x - m * (2 * dp);
    assert(x == m * (2 * dp) + r);
    assert(m * (2 * dp) == 2 * dp * m) by (nonlinear_arith);
    vstd::arithmetic::div_mod::lemma_fundamental_div_mod_converse(x, 2 * dp, m, r);
}

/// Draws the line from `(x0, y0)` to `(x1, y1)`, row 0 at the bottom, stepping one pixel at a
/// time along its longer axis and carrying the error along the other in integers. Pixels off
/// the image are skipped.
pub fn draw_line(x0: u32, y0: u32, x1: u32, y1: u32, image: &mut Canvas, color: Color)
    requires
        x0 <= i32::MAX,
        y0 <= i32::MAX,
        x1 <= i32::MAX,
        y1 <= i32::MAX,
    ensures
        canvas_dims(*final(image)) == canvas_dims(*old(image)),
        canvas_pixels(*final(image)).len() == canvas_pixels(*old(image)).len(),
        forall|x: int, y: int|
            0 <= x < canvas_width(*old(image)) && 0 <= y < canvas_height(*old(image))
                ==> canvas_pixels(*final(image))[flipped_index(
                canvas_width(*old(image)),
                canvas_height(*old(image)),
                x,
                y,
            )] == if #[trigger] on_line(x0 as int, y0 as int, x1 as int, y1 as int, x, y) {
                color
            } else {
                canvas_pixels(*old(image))[flipped_index(
                    canvas_width(*old(image)),
                    canvas_height(*old(image)),
                    x,
                    y,
                )]
            },
{
    let (wu, hu) = image.dimensions();
    let ghost w = wu as int;
    let ghost h = hu as int;
    let ghost old_px = canvas_pixels(*image);
    let ghost (gx0, gy0, gx1, gy1) = (x0 as int, y0 as int, x1 as int, y1 as int);
    let dx: i64 = x1 as i64 - x0 as i64;
    let dy: i64 = y1 as i64 - y0 as i64;
    let adx: i64 = if dx < 0 { -dx } else { dx };
    let ady: i64 = if dy < 0 { -dy } else { dy };
    // step along the longer axis
    let swap = adx < ady;
    let (pa, pb, qa, qb, dpa, dqa) = if !swap {
        (x0, x1, y0, y1, dx, dy)
    } else {
        (y0, y1, x0, x1, dy, dx)
    };
    // walk from the smaller major coordinate to the larger
    let (p0, p1, q0, q1) = if pa < pb {
        (pa, pb, qa, qb)
    } else {
        (pb, pa, qb, qa)
    };
    let dp: i64 = if dpa < 0 { -dpa } else { dpa };
    let dq: i64 = if dqa < 0 { -dqa } else { dqa };
    let q_add: i64 = if q0 < q1 { 1 } else { -1 };
    let q_err_add = dq * 2;
    let mut q_err: i64 = 0;
    let mut q: i64 = q0 as i64;
    let mut p: u32 = p0;
    let ghost mut m: int = 0;
    assert(line_ends(gx0, gy0, gx1, gy1) == (p0 as int, q0 as int, p1 as int, q1 as int));
    assert(dp == p1 - p0);
    assert(dq == magnitude(q1 - q0));
    assert(dq <= dp);
    while p <= p1
        invariant
            canvas_dims(*image) == (wu, hu),
            w == wu,
            h == hu,
            canvas_pixels(*image).len() == w * h,
            old_px.len() == w * h,
            canvas_dims(*old(image)) == (wu, hu),
            old_px == canvas_pixels(*old(image)),
            (gx0, gy0, gx1, gy1) == (x0 as int, y0 as int, x1 as int, y1 as int),
            swap == steep(gx0, gy0, gx1, gy1),
            line_ends(gx0, gy0, gx1, gy1) == (p0 as int, q0 as int, p1 as int, q1 as int),
            p1 <= i32::MAX,
            q0 <= i32::MAX,
            q1 <= i32::MAX,
            dp == p1 - p0,
            dq == magnitude(q1 - q0),
            dq <= dp,
            q_err_add == 2 * dq,
            q_add == if q0 < q1 { 1int } else { -1int },
            p0 <= p <= p1 + 1,
            0 <= m,
            p <= p1 ==> m <= dq,
            q == if q0 < q1 { q0 + m } else { q0 - m },
            q_err == 2 * dq * (p - p0) - 2 * dp * m,
            p <= p1 ==> -dp < q_err <= dp || (dp == 0 && q_err == 0),
            line_drawn_within(gx0, gy0, gx1, gy1, p - p0, color, w, h, old_px, canvas_pixels(*image)),
        decreases p1 + 1 - p,
    {
        let ghost k = p - p0;
        proof {
            if dp > 0 {
                lemma_rounded_step(k, dp as int, dq as int, m);
            }
            assert(q == line_minor(gx0, gy0, gx1, gy1, k));
        }
        let ghost before = canvas_pixels(*image);
        if !swap {
            draw_pixel(image, p, q as u32, color)
        } else {
            draw_pixel(image, q as u32, p, color)
        }
        proof {
            let after = canvas_pixels(*image);
            let (dx_, dy_) = if swap { (q as int, p as int) } else { (p as int, q as int) };
            if 0 <= dx_ < w && 0 <= dy_ < h {
                lemma_frame_index(w, h, dx_, dy_);
            }
            assert forall|x: int, y: int| 0 <= x < w && 0 <= y < h implies after[flipped_index(w, h, x, y)]
                == if #[trigger] on_line_within(gx0, gy0, gx1, gy1, k + 1, x, y) {
                color
            } else {
                old_px[flipped_index(w, h, x, y)]
            } by {
                assert(before[flipped_index(w, h, x, y)] == if on_line_within(gx0, gy0, gx1, gy1, k, x, y) {
                    color
                } else {
                    old_px[flipped_index(w, h, x, y)]
                });
                lemma_frame_index(w, h, x, y);
                if x != dx_ || y != dy_ {
                    if 0 <= dx_ < w && 0 <= dy_ < h {
                        lemma_frame_index_distinct(w, h, x, y, dx_, dy_);
                    }
                }
            }
        }
        q_err = q_err + q_err_add;
        if q_err > dp {
            q = q + q_add;
            q_err = q_err - dp * 2;
            proof {
                m = m + 1;
            }
        }
        proof {
            assert(2 * dq * (k + 1) == 2 * dq * k + 2 * dq) by (nonlinear_arith);
            assert(2 * dp * m == 2 * dp * (m - 1) + 2 * dp) by (nonlinear_arith);
            if p < p1 {
                let mm = m;
                let e = q_err as int;
                assert(mm <= dq) by (nonlinear_arith)
                    requires
                        0 <= k < dp,
                        0 <= dq <= dp,
                        e == 2 * dq * (k + 1) - 2 * dp * mm,
                        -dp < e,
                ;
            }
        }
        p = p + 1;
    }
}

} // verus!
