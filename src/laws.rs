//! What drawing triangles guarantees, stated over the contract of `draw_triangle`.
use crate::canvas::{flipped_index, Color};
use crate::draw::{
    area, covers, fragment_of, in_box, pixel_drawn, triangle_drawn, unchanged_at, Fragment,
    Triangle,
};
use vstd::prelude::*;

verus! {

/// Of two triangles drawn one after the other that both cover a pixel, with shaders that always
/// give a color, the nearer one (the greater depth) decides the pixel, whichever was drawn
/// first: the pixel ends with its color and its depth, provided that depth is greater than the
/// one stored before.
pub proof fn lemma_nearer_wins<F: Fn(Fragment) -> Option<Color>, G: Fn(Fragment) -> Option<Color>>(
    first_shade: F,
    first: Triangle,
    second_shade: G,
    second: Triangle,
    w: int,
    h: int,
    px0: Seq<Color>,
    z0: Seq<u16>,
    px1: Seq<Color>,
    z1: Seq<u16>,
    px2: Seq<Color>,
    z2: Seq<u16>,
    x: int,
    y: int,
)
    requires
        triangle_drawn(first_shade, first, w, h, px0, z0, px1, z1),
        triangle_drawn(second_shade, second, w, h, px1, z1, px2, z2),
        forall|f: Fragment| !first_shade.ensures((f,), None),
        forall|f: Fragment| !second_shade.ensures((f,), None),
        0 <= x < w,
        0 <= y < h,
        in_box(first, w, h, x, y) && covers(first, [x as i32, y as i32]),
        in_box(second, w, h, x, y) && covers(second, [x as i32, y as i32]),
        fragment_of(first, x as i32, y as i32).depth != fragment_of(second, x as i32, y as i32).depth,
        z0[y * w + x] < fragment_of(first, x as i32, y as i32).depth
            || z0[y * w + x] < fragment_of(second, x as i32, y as i32).depth,
    ensures
        ({
            let f1 = fragment_of(first, x as i32, y as i32);
            let f2 = fragment_of(second, x as i32, y as i32);
            let c = px2[flipped_index(w, h, x, y)];
            &&& f1.depth > f2.depth ==> z2[y * w + x] == f1.depth && first_shade.ensures((f1,), Some(c))
            &&& f2.depth > f1.depth ==> z2[y * w + x] == f2.depth && second_shade.ensures((f2,), Some(c))
        }),
{
    assert(pixel_drawn(first_shade, first, w, h, px0, z0, px1, z1, x, y));
    assert(pixel_drawn(second_shade, second, w, h, px1, z1, px2, z2, x, y));
}

/// A triangle writes no pixel outside its bounding box: there colors and depths stay as they
/// were.
pub proof fn lemma_outside_box_untouched<F: Fn(Fragment) -> Option<Color>>(
    shade: F,
    t: Triangle,
    w: int,
    h: int,
    old_px: Seq<Color>,
    old_z: Seq<u16>,
    new_px: Seq<Color>,
    new_z: Seq<u16>,
    x: int,
    y: int,
)
    requires
        triangle_drawn(shade, t, w, h, old_px, old_z, new_px, new_z),
        0 <= x < w,
        0 <= y < h,
        !in_box(t, w, h, x, y),
    ensures
        unchanged_at(w, h, old_px, old_z, new_px, new_z, x, y),
{
    assert(pixel_drawn(shade, t, w, h, old_px, old_z, new_px, new_z, x, y));
}

/// Every position of a `w` by `h` frame is that of a pixel.
proof fn lemma_index_decompose(w: int, h: int, i: int)
    requires
        0 <= w,
        0 <= i < w * h,
    ensures
        0 <= i % w < w,
        0 <= i / w < h,
        i == (i / w) * w + i % w,
{
    assert(w > 0) by (nonlinear_arith)
        requires
            0 <= w,
            0 <= i < w * h,
    ;
    vstd::arithmetic::div_mod::lemma_fundamental_div_mod(i, w);
    vstd::arithmetic::div_mod::lemma_mod_pos_bound(i, w);
    vstd::arithmetic::div_mod::lemma_div_pos_is_pos(i, w);
    let (q, r) = (i / w, i % w);
    assert(q < h) by (nonlinear_arith)
        requires
            i == w * q + r,
            0 <= r,
            i < w * h,
            w > 0,
    ;
    assert(w * q == q * w) by (nonlinear_arith);
}

/// A triangle whose three vertices are collinear on the screen writes no pixel and leaves the
/// depth buffer as it was.
pub proof fn lemma_degenerate_draws_nothing<F: Fn(Fragment) -> Option<Color>>(
    shade: F,
    t: Triangle,
    w: int,
    h: int,
    old_px: Seq<Color>,
    old_z: Seq<u16>,
    new_px: Seq<Color>,
    new_z: Seq<u16>,
)
    requires
        triangle_drawn(shade, t, w, h, old_px, old_z, new_px, new_z),
        0 <= w,
        0 <= h,
        old_px.len() == w * h,
        old_z.len() == w * h,
        area(t) == 0,
    ensures
        new_px == old_px,
        new_z == old_z,
{
    assert forall|i: int| 0 <= i < w * h implies new_z[i] == old_z[i] by {
        lemma_index_decompose(w, h, i);
        assert(pixel_drawn(shade, t, w, h, old_px, old_z, new_px, new_z, i % w, i / w));
    }
    assert forall|i: int| 0 <= i < w * h implies new_px[i] == old_px[i] by {
        lemma_index_decompose(w, h, i);
        let (x, y) = (i % w, h - 1 - i / w);
        assert(flipped_index(w, h, x, y) == i);
        assert(pixel_drawn(shade, t, w, h, old_px, old_z, new_px, new_z, x, y));
    }
    assert(new_z =~= old_z);
    assert(new_px =~= old_px);
}

} // verus!
