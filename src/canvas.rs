//! The color buffer that the rasterizer writes into: an RGB image of the `image` crate.
//!
//! The image is modelled as a sequence of colors in row-major order, row 0 at the top, as the
//! `image` crate stores it. The drawing functions address pixels with row 0 at the bottom and
//! flip rows when they write.
use vstd::prelude::*;

verus! {

/// An RGB color, one byte per channel.
pub type Color = [u8; 3];

/// An RGB image with one byte per channel, held in an `image::RgbImage`. Its size and pixels
/// are seen through `canvas_dims` and `canvas_pixels`.
#[verifier::external_body]
pub struct Canvas {
    img: image::RgbImage,
}

/// Width and height that a canvas was made with.
pub uninterp spec fn canvas_dims(c: Canvas) -> (u32, u32);

/// The pixels of a canvas, row-major with row 0 at the top: pixel `(x, y)` is at `y * width + x`.
pub uninterp spec fn canvas_pixels(c: Canvas) -> Seq<Color>;

pub open spec fn canvas_width(c: Canvas) -> int {
    canvas_dims(c).0 as int
}

pub open spec fn canvas_height(c: Canvas) -> int {
    canvas_dims(c).1 as int
}

/// Position in the pixel sequence of the pixel at `(x, y)` counted with row 0 at the bottom.
pub open spec fn flipped_index(w: int, h: int, x: int, y: int) -> int {
    (h - 1 - y) * w + x
}

/// The color at `(x, y)`, row 0 at the bottom.
pub open spec fn pixel_at(c: Canvas, x: int, y: int) -> Color {
    canvas_pixels(c)[flipped_index(canvas_width(c), canvas_height(c), x, y)]
}

pub open spec fn black() -> Color {
    [0u8, 0u8, 0u8]
}

/// Relies on `ImageBuffer::new`: a `width` by `height` image whose channels are all zero. It
/// panics where three bytes per pixel would overflow `usize`.
#[verifier::external_body]
fn blank_image(width: u32, height: u32) -> (r: Canvas)
    requires
        3 * width * height <= usize::MAX,
    ensures
        canvas_dims(r) == (width, height),
        canvas_pixels(r) == Seq::new((width * height) as nat, |i: int| black()),
{
    Canvas { img: image::RgbImage::new(width, height) }
}

/// Relies on `ImageBuffer::dimensions`: the width and height the image was made with, which
/// hold `width * height` pixels.
#[verifier::external_body]
fn image_dimensions(c: &Canvas) -> (r: (u32, u32))
    ensures
        r == canvas_dims(*c),
        canvas_pixels(*c).len() == r.0 * r.1,
{
    c.img.dimensions()
}

/// Relies on `ImageBuffer::put_pixel`: it sets the pixel at `(x, y)`, row 0 at the top, and
/// no other. It panics outside the image.
#[verifier::external_body]
fn image_put_pixel(c: &mut Canvas, x: u32, y: u32, color: Color)
    requires
        x < canvas_width(*old(c)),
        y < canvas_height(*old(c)),
    ensures
        canvas_dims(*final(c)) == canvas_dims(*old(c)),
        canvas_pixels(*final(c)) == canvas_pixels(*old(c)).update(
            y * canvas_width(*old(c)) + x,
            color,
        ),
{
    c.img.put_pixel(x, y, image::Rgb(color))
}

/// Relies on `ImageBuffer::into_raw`: the channels of each pixel in turn, in the order of the
/// pixel sequence.
#[verifier::external_body]
fn image_into_raw(c: Canvas) -> (r: Vec<u8>)
    ensures
        r@.len() == 3 * canvas_pixels(c).len(),
        forall|i: int, k: int|
            0 <= i < canvas_pixels(c).len() && 0 <= k < 3 ==> r@[3 * i + k] == #[trigger] canvas_pixels(c)[i][k],
{
    c.img.into_raw()
}

impl Canvas {
    /// A black canvas of the given size.
    pub fn new(width: u32, height: u32) -> (r: Canvas)
        requires
            3 * width * height <= usize::MAX,
        ensures
            canvas_dims(r) == (width, height),
            canvas_pixels(r) == Seq::new((width * height) as nat, |i: int| black()),
    {
        blank_image(width, height)
    }

    /// Width and height of the canvas.
    pub fn dimensions(&self) -> (r: (u32, u32))
        ensures
            r == canvas_dims(*self),
            canvas_pixels(*self).len() == r.0 * r.1,
    {
        image_dimensions(self)
    }

    /// The channels of every pixel, row-major with row 0 at the top.
    pub fn into_raw(self) -> (r: Vec<u8>)
        ensures
            r@.len() == 3 * canvas_pixels(self).len(),
            forall|i: int, k: int|
                0 <= i < canvas_pixels(self).len() && 0 <= k < 3 ==> r@[3 * i + k]
                    == #[trigger] canvas_pixels(self)[i][k],
    {
        image_into_raw(self)
    }
}

/// Sets the pixel at `(x, y)`, where row 0 is the bottom of the image; does nothing outside
/// the image.
pub fn draw_pixel(image: &mut Canvas, x: u32, y: u32, val: Color)
    ensures
        canvas_dims(*final(image)) == canvas_dims(*old(image)),
        canvas_pixels(*final(image)) == if x < canvas_width(*old(image)) && y < canvas_height(
            *old(image),
        ) {
            canvas_pixels(*old(image)).update(
                flipped_index(canvas_width(*old(image)), canvas_height(*old(image)), x as int, y as int),
                val,
            )
        } else {
            canvas_pixels(*old(image))
        },
{
    let (w, h) = image_dimensions(image);
    if x < w && y < h {
        image_put_pixel(image, x, h - y - 1, val);
    }
}

/// Both positions of a pixel of a `w` by `h` frame lie within it.
pub(crate) proof fn lemma_frame_index(w: int, h: int, x: int, y: int)
    requires
        0 <= x < w,
        0 <= y < h,
    ensures
        0 <= y * w + x < w * h,
        0 <= flipped_index(w, h, x, y) < w * h,
{
    assert(0 <= y * w + x < w * h) by (nonlinear_arith)
        requires
            0 <= x < w,
            0 <= y < h,
    ;
    let fy = h - 1 - y;
    assert(0 <= fy * w + x < w * h) by (nonlinear_arith)
        requires
            0 <= x < w,
            0 <= fy < h,
    ;
}

/// Distinct pixels of a frame have distinct positions.
pub(crate) proof fn lemma_frame_index_distinct(w: int, h: int, x: int, y: int, x2: int, y2: int)
    requires
        0 <= x < w,
        0 <= y < h,
        0 <= x2 < w,
        0 <= y2 < h,
        x != x2 || y != y2,
    ensures
        y * w + x != y2 * w + x2,
        flipped_index(w, h, x, y) != flipped_index(w, h, x2, y2),
{
    assert(y * w + x != y2 * w + x2) by (nonlinear_arith)
        requires
            0 <= x < w,
            0 <= x2 < w,
            x != x2 || y != y2,
    ;
    let (fy, fy2) = (h - 1 - y, h - 1 - y2);
    assert(fy * w + x != fy2 * w + x2) by (nonlinear_arith)
        requires
            0 <= x < w,
            0 <= x2 < w,
            x != x2 || fy != fy2,
    ;
}

} // verus!
