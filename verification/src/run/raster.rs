//! Rasterizing particles into RGBA frames for GIF recording.
//!
//! A frame is a `width × height` buffer of RGBA bytes in row-major order,
//! starting black and opaque. Each particle lights the square of pixels
//! within `radius` of its pixel, adding its color with saturation; the
//! parts of the square outside the frame are clipped.
use vstd::prelude::*;

verus! {

/// Channel `c` of the pixel at column `x` and row `y` lies at byte
/// `(y * width + x) * 4 + c`.
pub open spec fn pixel_column(k: int, width: int) -> int {
    (k / 4) % width
}

/// The row of the pixel that byte `k` belongs to.
pub open spec fn pixel_row(k: int, width: int) -> int {
    (k / 4) / width
}

/// `(px, py)` lies within `radius` of `(cx, cy)` in both directions.
pub open spec fn covered(px: int, py: int, cx: int, cy: int, radius: int) -> bool {
    cx - radius <= px <= cx + radius && cy - radius <= py <= cy + radius
}

/// Saturating byte addition.
pub open spec fn sat_add(a: u8, b: u8) -> u8 {
    if a + b > 255 {
        255
    } else {
        (a + b) as u8
    }
}

/// The value of byte `k` once the pixels of the square that come before
/// row `y_cur`, or in row `y_cur` before column `x_cur`, have been lit.
pub open spec fn lit_before(
    old: Seq<u8>,
    k: int,
    width: int,
    cx: int,
    cy: int,
    radius: int,
    color: Seq<u8>,
    y_cur: int,
    x_cur: int,
) -> u8 {
    let px = pixel_column(k, width);
    let py = pixel_row(k, width);
    if k % 4 < 3 && covered(px, py, cx, cy, radius) && (py < y_cur || (py == y_cur && px < x_cur)) {
        sat_add(old[k], color[k % 4])
    } else {
        old[k]
    }
}

/// Byte `k` of the frame after lighting the square around `(cx, cy)`.
pub open spec fn splat_value(
    old: Seq<u8>,
    k: int,
    width: int,
    cx: int,
    cy: int,
    radius: int,
    color: Seq<u8>,
) -> u8 {
    if k % 4 < 3 && covered(pixel_column(k, width), pixel_row(k, width), cx, cy, radius) {
        sat_add(old[k], color[k % 4])
    } else {
        old[k]
    }
}

/// Frames stay opaque: lighting a square never changes an alpha byte,
/// so a frame that starts opaque is opaque after any number of splats.
pub proof fn law_splat_keeps_alpha(
    old: Seq<u8>,
    k: int,
    width: int,
    cx: int,
    cy: int,
    radius: int,
    color: Seq<u8>,
)
    requires
        k % 4 == 3,
    ensures
        splat_value(old, k, width, cx, cy, radius, color) == old[k],
{
}

/// What a splat does to each byte of the frame, by pixel: channel `c` of
/// the pixel at column `x`, row `y` gains `color[c]` (saturating at 255)
/// for each of red, green and blue when the pixel lies within `radius` of
/// `(cx, cy)` in both directions, and is otherwise, like every alpha byte,
/// left as it was.
pub proof fn law_splat_pixels(
    old: Seq<u8>,
    width: int,
    height: int,
    x: int,
    y: int,
    c: int,
    cx: int,
    cy: int,
    radius: int,
    color: Seq<u8>,
)
    requires
        width > 0,
        0 <= x < width,
        0 <= y < height,
        0 <= c < 4,
        old.len() == width * height * 4,
        color.len() == 3,
    ensures
        ({
            let k = (y * width + x) * 4 + c;
            let lit = c < 3 && cx - radius <= x <= cx + radius && cy - radius <= y <= cy + radius;
            splat_value(old, k, width, cx, cy, radius, color) == if lit {
                if old[k] + color[c] > 255 {
                    255u8
                } else {
                    (old[k] + color[c]) as u8
                }
            } else {
                old[k]
            }
        }),
{
    lemma_byte_of_pixel(x, y, c, width);
}

/// A black, opaque frame: every pixel is (0, 0, 0, 255).
pub fn blank_frame(width: u32, height: u32) -> (r: Vec<u8>)
    requires
        width * height * 4 <= u32::MAX,
    ensures
        r@.len() == width * height * 4,
        forall|k: int| 0 <= k < r@.len() ==> #[trigger] r@[k] == (if k % 4 == 3 {
            255u8
        } else {
            0u8
        }),
{
    let len = (width * height * 4) as usize;
    let mut pixels: Vec<u8> = Vec::new();
    let mut k: usize = 0;
    while k < len
        invariant
            k <= len,
            len == width * height * 4,
            pixels@.len() == k,
            forall|j: int| 0 <= j < k ==> #[trigger] pixels@[j] == (if j % 4 == 3 {
                255u8
            } else {
                0u8
            }),
        decreases len - k,
    {
        if k % 4 == 3 {
            pixels.push(255);
        } else {
            pixels.push(0);
        }
        k = k + 1;
    }
    pixels
}

proof fn lemma_byte_of_pixel(x: int, y: int, c: int, width: int)
    requires
        0 <= x < width,
        0 <= y,
        0 <= c < 4,
    ensures
        ((y * width + x) * 4 + c) % 4 == c,
        pixel_column((y * width + x) * 4 + c, width) == x,
        pixel_row((y * width + x) * 4 + c, width) == y,
{
    let p = y * width + x;
    assert(p >= 0) by (nonlinear_arith)
        requires
            0 <= x,
            0 <= y,
            width > 0,
            p == y * width + x,
    ;
    vstd::arithmetic::div_mod::lemma_fundamental_div_mod_converse(p * 4 + c, 4, p, c);
    vstd::arithmetic::div_mod::lemma_fundamental_div_mod_converse(p, width, y, x);
}

proof fn lemma_pixel_of_byte(k: int, width: int, height: int)
    requires
        0 <= k < width * height * 4,
        width > 0,
    ensures
        0 <= pixel_column(k, width) < width,
        0 <= pixel_row(k, width) < height,
        k == (pixel_row(k, width) * width + pixel_column(k, width)) * 4 + k % 4,
        0 <= k % 4 < 4,
{
    let p = k / 4;
    vstd::arithmetic::div_mod::lemma_fundamental_div_mod(k, 4);
    vstd::arithmetic::div_mod::lemma_fundamental_div_mod(p, width);
    vstd::arithmetic::div_mod::lemma_mod_bound(p, width);
    vstd::arithmetic::div_mod::lemma_mod_bound(k, 4);
    assert(p < width * height) by (nonlinear_arith)
        requires
            k < width * height * 4,
            k == 4 * p + k % 4,
            0 <= k % 4,
    ;
    assert(0 <= p) by (nonlinear_arith)
        requires
            0 <= k,
            k == 4 * p + k % 4,
            k % 4 < 4,
    ;
    vstd::arithmetic::div_mod::lemma_div_pos_is_pos(p, width);
    assert(p / width < height) by (nonlinear_arith)
        requires
            p < width * height,
            p == width * (p / width) + p % width,
            0 <= p % width,
            width > 0,
    ;
}

/// Light the square of pixels within `radius` of `(pixel_x, pixel_y)`,
/// adding `color` to the red, green and blue bytes with saturation and
/// leaving alpha alone; pixels outside the frame are skipped.
pub fn splat_point(
    pixels: &mut Vec<u8>,
    width: u32,
    height: u32,
    pixel_x: i32,
    pixel_y: i32,
    radius: i32,
    color: [u8; 3],
)
    requires
        old(pixels)@.len() == width * height * 4,
        width * height * 4 <= u32::MAX,
    ensures
        final(pixels)@.len() == old(pixels)@.len(),
        forall|k: int| 0 <= k < old(pixels)@.len() ==> #[trigger] final(pixels)@[k] == splat_value(
            old(pixels)@,
            k,
            width as int,
            pixel_x as int,
            pixel_y as int,
            radius as int,
            color@,
        ),
{
    let ghost old_px = pixels@;
    let ghost len = old_px.len() as int;
    if radius < 0 || width == 0 {
        return;
    }
    let w = width as i64;
    let h = height as i64;
    let cx = pixel_x as i64;
    let cy = pixel_y as i64;
    let r = radius as i64;
    let mut y = cy - r;
    while y <= cy + r
        invariant
            w == width,
            h == height,
            w > 0,
            cx == pixel_x,
            cy == pixel_y,
            r == radius,
            len == width * height * 4,
            width * height * 4 <= u32::MAX,
            pixels@.len() == len,
            y >= cy - r,
            y <= cy + r + 1,
            forall|k: int| 0 <= k < len ==> #[trigger] pixels@[k] == lit_before(
                old_px,
                k,
                w as int,
                cx as int,
                cy as int,
                r as int,
                color@,
                y as int,
                cx - r,
            ),
        decreases cy + r + 1 - y,
    {
        let mut x = cx - r;
        while x <= cx + r
            invariant
                w == width,
                h == height,
                w > 0,
                cx == pixel_x,
                cy == pixel_y,
                r == radius,
                len == width * height * 4,
                width * height * 4 <= u32::MAX,
                pixels@.len() == len,
                cy - r <= y <= cy + r,
                x >= cx - r,
                x <= cx + r + 1,
                forall|k: int| 0 <= k < len ==> #[trigger] pixels@[k] == lit_before(
                    old_px,
                    k,
                    w as int,
                    cx as int,
                    cy as int,
                    r as int,
                    color@,
                    y as int,
                    x as int,
                ),
            decreases cx + r + 1 - x,
        {
            let ghost before = pixels@;
            if x >= 0 && x < w && y >= 0 && y < h {
                proof {
                    assert(y * w + x < w * h) by (nonlinear_arith)
                        requires
                            0 <= x < w,
                            0 <= y < h,
                    ;
                    assert((y * w + x) * 4 + 3 < w * h * 4) by (nonlinear_arith)
                        requires
                            y * w + x < w * h,
                    ;
                    assert(y * w + x >= 0) by (nonlinear_arith)
                        requires
                            0 <= x,
                            0 <= y,
                            w > 0,
                    ;
                    lemma_byte_of_pixel(x as int, y as int, 0, w as int);
                    lemma_byte_of_pixel(x as int, y as int, 1, w as int);
                    lemma_byte_of_pixel(x as int, y as int, 2, w as int);
                }
                let o = ((y * w + x) * 4) as usize;
                let v0 = pixels[o].saturating_add(color[0]);
                pixels.set(o, v0);
                let v1 = pixels[o + 1].saturating_add(color[1]);
                pixels.set(o + 1, v1);
                let v2 = pixels[o + 2].saturating_add(color[2]);
                pixels.set(o + 2, v2);
                proof {
                    assert forall|k: int| 0 <= k < len implies #[trigger] pixels@[k] == lit_before(
                        old_px,
                        k,
                        w as int,
                        cx as int,
                        cy as int,
                        r as int,
                        color@,
                        y as int,
                        x + 1,
                    ) by {
                        lemma_pixel_of_byte(k, w as int, h as int);
                        assert(before[k] == lit_before(
                            old_px,
                            k,
                            w as int,
                            cx as int,
                            cy as int,
                            r as int,
                            color@,
                            y as int,
                            x as int,
                        ));
                        if k != o && k != o + 1 && k != o + 2 {
                            if pixel_row(k, w as int) == y && pixel_column(k, w as int) == x && k % 4
                                < 3 {
                                assert(k == (y * w + x) * 4 + k % 4);
                            }
                        }
                    }
                }
            } else {
                proof {
                    assert forall|k: int| 0 <= k < len implies #[trigger] pixels@[k] == lit_before(
                        old_px,
                        k,
                        w as int,
                        cx as int,
                        cy as int,
                        r as int,
                        color@,
                        y as int,
                        x + 1,
                    ) by {
                        lemma_pixel_of_byte(k, w as int, h as int);
                    }
                }
            }
            x = x + 1;
        }
        proof {
            assert forall|k: int| 0 <= k < len implies #[trigger] pixels@[k] == lit_before(
                old_px,
                k,
                w as int,
                cx as int,
                cy as int,
                r as int,
                color@,
                y + 1,
                cx - r,
            ) by {
                lemma_pixel_of_byte(k, w as int, h as int);
            }
        }
        y = y + 1;
    }
    proof {
        assert forall|k: int| 0 <= k < len implies #[trigger] pixels@[k] == splat_value(
            old_px,
            k,
            width as int,
            pixel_x as int,
            pixel_y as int,
            radius as int,
            color@,
        ) by {
            assert(pixels@[k] == lit_before(
                old_px,
                k,
                w as int,
                cx as int,
                cy as int,
                r as int,
                color@,
                y as int,
                cx - r,
            ));
        }
    }
}

} // verus!
