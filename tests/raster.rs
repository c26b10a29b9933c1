use tinyrenderer::canvas::{draw_pixel, Canvas, Color};
use tinyrenderer::draw::{barycentric, draw_triangle, Barycentric, Fragment, Triangle};

const WHITE: Color = [255, 255, 255];
const BLACK: Color = [0, 0, 0];

/// Color at `(x, y)`, row 0 at the bottom, of the raw channels of a `w` by `h` canvas.
fn color_at(raw: &[u8], w: usize, h: usize, x: usize, y: usize) -> Color {
    let i = 3 * ((h - 1 - y) * w + x);
    [raw[i], raw[i + 1], raw[i + 2]]
}

fn render(w: u32, h: u32, tris: &[(Triangle, Color)]) -> (Vec<u8>, Vec<u16>) {
    let mut canvas = Canvas::new(w, h);
    let mut zbuffer = vec![0u16; (w * h) as usize];
    for &(t, color) in tris {
        draw_triangle(&mut canvas, t, |_f: Fragment| Some(color), &mut zbuffer);
    }
    (canvas.into_raw(), zbuffer)
}

#[test]
fn single_white_triangle_fills_its_interior() {
    let t: Triangle = [[10, 10, 100], [50, 10, 100], [30, 40, 100]];
    let (raw, z) = render(64, 64, &[(t, WHITE)]);
    let mut inside = 0;
    for y in 0..64usize {
        for x in 0..64usize {
            let covered = barycentric(t, [x as i32, y as i32]).is_some();
            let in_box = (10..50).contains(&x) && (10..40).contains(&y);
            if covered && in_box {
                inside += 1;
                assert_eq!(color_at(&raw, 64, 64, x, y), WHITE, "pixel {} {}", x, y);
                assert_eq!(z[y * 64 + x], 100);
            } else {
                assert_eq!(color_at(&raw, 64, 64, x, y), BLACK, "pixel {} {}", x, y);
                assert_eq!(z[y * 64 + x], 0);
            }
        }
    }
    assert!(inside > 500);
    assert_eq!(color_at(&raw, 64, 64, 30, 20), WHITE);
    assert_eq!(color_at(&raw, 64, 64, 10, 39), BLACK);
    assert_eq!(color_at(&raw, 64, 64, 49, 39), BLACK);
    assert_eq!(color_at(&raw, 64, 64, 5, 5), BLACK);
}

#[test]
fn later_nearer_triangle_takes_the_pixel() {
    let red: Color = [255, 0, 0];
    let green: Color = [0, 255, 0];
    let first: Triangle = [[10, 10, 50], [50, 10, 50], [30, 40, 50]];
    let second: Triangle = [[12, 12, 80], [52, 14, 80], [28, 44, 80]];
    let (raw, z) = render(64, 64, &[(first, red), (second, green)]);
    assert_eq!(color_at(&raw, 64, 64, 30, 25), green);
    assert_eq!(z[25 * 64 + 30], 80);
}

#[test]
fn nearer_triangle_wins_in_either_order() {
    let red: Color = [255, 0, 0];
    let blue: Color = [0, 0, 255];
    let near: Triangle = [[0, 0, 900], [60, 0, 900], [0, 60, 900]];
    let far: Triangle = [[0, 0, 300], [60, 0, 300], [0, 60, 300]];
    let (raw1, z1) = render(64, 64, &[(near, red), (far, blue)]);
    let (raw2, z2) = render(64, 64, &[(far, blue), (near, red)]);
    for (x, y) in [(5usize, 5usize), (20, 20), (1, 40)] {
        assert_eq!(color_at(&raw1, 64, 64, x, y), red);
        assert_eq!(color_at(&raw2, 64, 64, x, y), red);
        assert_eq!(z1[y * 64 + x], 900);
        assert_eq!(z2[y * 64 + x], 900);
    }
}

#[test]
fn equal_depth_keeps_the_first_triangle() {
    let red: Color = [255, 0, 0];
    let blue: Color = [0, 0, 255];
    let t: Triangle = [[0, 0, 40], [60, 0, 40], [0, 60, 40]];
    let (raw, _) = render(64, 64, &[(t, red), (t, blue)]);
    assert_eq!(color_at(&raw, 64, 64, 10, 10), red);
}

#[test]
fn nothing_is_written_outside_the_bounding_box() {
    // partly off screen: the box is clamped to [0, 31] and its last row and column left out
    let t: Triangle = [[-20, -20, 10], [100, 5, 10], [5, 100, 10]];
    let (raw, z) = render(32, 32, &[(t, WHITE)]);
    for i in 0..32usize {
        assert_eq!(color_at(&raw, 32, 32, 31, i), BLACK);
        assert_eq!(color_at(&raw, 32, 32, i, 31), BLACK);
        assert_eq!(z[i * 32 + 31], 0);
        assert_eq!(z[31 * 32 + i], 0);
    }
    assert_eq!(color_at(&raw, 32, 32, 0, 0), WHITE);
    assert_eq!(color_at(&raw, 32, 32, 20, 2), WHITE);
}

#[test]
fn small_triangle_stays_in_its_box() {
    let t: Triangle = [[5, 5, 7], [9, 5, 7], [5, 9, 7]];
    let (raw, z) = render(16, 16, &[(t, WHITE)]);
    for y in 0..16usize {
        for x in 0..16usize {
            if !((5..9).contains(&x) && (5..9).contains(&y)) {
                assert_eq!(color_at(&raw, 16, 16, x, y), BLACK);
                assert_eq!(z[y * 16 + x], 0);
            }
        }
    }
    assert_eq!(z[5 * 16 + 5], 7);
}

#[test]
fn collinear_triangle_draws_nothing() {
    let t: Triangle = [[2, 2, 10], [10, 10, 10], [20, 20, 10]];
    let mut canvas = Canvas::new(32, 32);
    let mut zbuffer = vec![3u16; 32 * 32];
    draw_triangle(&mut canvas, t, |_f: Fragment| Some(WHITE), &mut zbuffer);
    assert!(zbuffer.iter().all(|&d| d == 3));
    assert!(canvas.into_raw().iter().all(|&c| c == 0));
}

#[test]
fn shader_without_color_leaves_pixels_alone() {
    let t: Triangle = [[0, 0, 10], [30, 0, 10], [0, 30, 10]];
    let mut canvas = Canvas::new(32, 32);
    let mut zbuffer = vec![0u16; 32 * 32];
    draw_triangle(&mut canvas, t, |f: Fragment| if f.x < 5 { None } else { Some(WHITE) }, &mut zbuffer);
    let raw = canvas.into_raw();
    assert_eq!(color_at(&raw, 32, 32, 2, 2), BLACK);
    assert_eq!(zbuffer[2 * 32 + 2], 0);
    assert_eq!(color_at(&raw, 32, 32, 6, 2), WHITE);
    assert_eq!(zbuffer[2 * 32 + 6], 10);
}

#[test]
fn fragments_carry_position_depth_and_weights() {
    let t: Triangle = [[0, 0, 0], [4, 0, 10], [0, 4, 0]];
    let mut canvas = Canvas::new(8, 8);
    let mut zbuffer = vec![0u16; 64];
    draw_triangle(
        &mut canvas,
        t,
        |f: Fragment| {
            if f.x == 1 && f.y == 1 {
                assert_eq!(f.weights, Barycentric { w0: 8, w1: 4, w2: 4, total: 16 });
                assert_eq!(f.depth, 3);
            }
            Some(WHITE)
        },
        &mut zbuffer,
    );
    // 10 * 4 / 16 = 2.5 rounds up
    assert_eq!(zbuffer[1 * 8 + 1], 3);
    // at (1, 0) the weights are 12, 4, 0 over 16: 2.5 again
    assert_eq!(zbuffer[0 * 8 + 1], 3);
}

#[test]
fn depth_is_clamped_to_sixteen_bits() {
    let big: Triangle = [[0, 0, 100000], [20, 0, 100000], [0, 20, 100000]];
    let (_, z) = render(32, 32, &[(big, WHITE)]);
    assert_eq!(z[2 * 32 + 2], 65535);
    let negative: Triangle = [[0, 0, -50], [20, 0, -50], [0, 20, -50]];
    let (raw, z) = render(32, 32, &[(negative, WHITE)]);
    assert_eq!(z[2 * 32 + 2], 0);
    assert_eq!(color_at(&raw, 32, 32, 2, 2), BLACK);
}

#[test]
fn barycentric_weights_are_exact() {
    let t: Triangle = [[0, 0, 0], [4, 0, 0], [0, 4, 0]];
    let b = barycentric(t, [1, 1]).unwrap();
    assert_eq!(b, Barycentric { w0: 8, w1: 4, w2: 4, total: 16 });
    // the same triangle wound the other way
    let r: Triangle = [[0, 0, 0], [0, 4, 0], [4, 0, 0]];
    assert_eq!(barycentric(r, [1, 1]).unwrap(), Barycentric { w0: 8, w1: 4, w2: 4, total: 16 });
    // vertices and edges are inside
    assert_eq!(barycentric(t, [0, 0]).unwrap(), Barycentric { w0: 16, w1: 0, w2: 0, total: 16 });
    assert_eq!(barycentric(t, [2, 2]).unwrap(), Barycentric { w0: 0, w1: 8, w2: 8, total: 16 });
    assert_eq!(barycentric(t, [3, 3]), None);
    assert_eq!(barycentric(t, [-1, 0]), None);
}

#[test]
fn barycentric_weights_partition_and_locate_the_point() {
    let t: Triangle = [[3, -7, 0], [41, 2, 0], [-5, 30, 0]];
    for y in -10..35 {
        for x in -10..45 {
            if let Some(b) = barycentric(t, [x, y]) {
                assert!(b.total > 0 && b.w0 >= 0 && b.w1 >= 0 && b.w2 >= 0);
                assert_eq!(b.w0 + b.w1 + b.w2, b.total);
                assert_eq!(b.w0 * 3 + b.w1 * 41 + b.w2 * -5, b.total * x as i128);
                assert_eq!(b.w0 * -7 + b.w1 * 2 + b.w2 * 30, b.total * y as i128);
            }
        }
    }
}

#[test]
fn degenerate_triangle_has_no_weights() {
    let t: Triangle = [[0, 0, 0], [5, 5, 0], [10, 10, 0]];
    assert_eq!(barycentric(t, [5, 5]), None);
    let point: Triangle = [[3, 3, 0], [3, 3, 0], [3, 3, 0]];
    assert_eq!(barycentric(point, [3, 3]), None);
}

#[test]
fn extreme_coordinates_do_not_overflow() {
    let (lo, hi) = (i32::MIN, i32::MAX);
    let t: Triangle = [[lo, lo, hi], [hi, lo, hi], [hi, hi, hi]];
    let b = barycentric(t, [0, 0]).unwrap();
    assert_eq!(b.w0 + b.w1 + b.w2, b.total);
    assert_eq!(b.total, (hi as i128 - lo as i128) * (hi as i128 - lo as i128));
    let mut canvas = Canvas::new(4, 4);
    let mut zbuffer = vec![0u16; 16];
    draw_triangle(&mut canvas, t, |_f: Fragment| Some(WHITE), &mut zbuffer);
    assert_eq!(zbuffer[0], 65535);
    assert_eq!(zbuffer[1], 65535);
    assert_eq!(zbuffer[4], 0);
}

#[test]
fn draw_pixel_flips_rows_and_skips_outside() {
    let mut canvas = Canvas::new(4, 3);
    assert_eq!(canvas.dimensions(), (4, 3));
    draw_pixel(&mut canvas, 1, 0, WHITE);
    draw_pixel(&mut canvas, 4, 0, WHITE);
    draw_pixel(&mut canvas, 0, 3, WHITE);
    let raw = canvas.into_raw();
    assert_eq!(raw.len(), 36);
    // row 0 at the bottom is the last row of the image
    assert_eq!(&raw[3 * (2 * 4 + 1)..3 * (2 * 4 + 2)], &[255, 255, 255]);
    assert_eq!(raw.iter().filter(|&&c| c == 255).count(), 3);
}
