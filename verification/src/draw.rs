use vstd::prelude::*;
use vstd::arithmetic::div_mod::{lemma_div_pos_is_pos, lemma_multiply_divide_lt};
use crate::buffer::Win32OffscreenBuffer;
use crate::color::Color;
use crate::raster::{Raster, lemma_paint_done, lemma_paint_skip, lemma_paint_step, lemma_repaint};
use crate::stars::{Star, lemma_alpha_in_range, star_alpha};
use crate::vector::{V2, pixel_index, to_pixel};

verus! {

/// The paint of a filled rectangle: pixels in the box of `width` by `height`
/// pixels whose first pixel is `(left, top)` take `color`, all others keep
/// theirs.
pub open spec fn rect_paint(left: int, top: int, width: int, height: int, color: Color) -> spec_fn(
    int,
    int,
    Color,
) -> Color {
    |x: int, y: int, c: Color|
        if left <= x < left + width && top <= y < top + height {
            color
        } else {
            c
        }
}

/// Fills the rectangle of `width` by `height` pixels whose first pixel is
/// `(left, top)`.
///
/// The rectangle may lie partly or wholly outside the buffer: the pixels of
/// it that the buffer has take `color`, and nothing else changes.
pub fn fill_pixels(
    left: i32,
    top: i32,
    width: i64,
    height: i64,
    color: &Color,
    buffer: &mut Win32OffscreenBuffer,
)
    requires
        old(buffer).wf(),
    ensures
        final(buffer).wf(),
        final(buffer)@ == old(buffer)@.repaint(
            rect_paint(left as int, top as int, width as int, height as int, *color),
        ),
{
    let ghost paint = rect_paint(left as int, top as int, width as int, height as int, *color);
    let ghost before = buffer@;
    if width <= 0 || height <= 0 {
        proof {
            lemma_paint_skip(before, before, paint, 0, 0, before.height, 0);
            lemma_paint_done(before, buffer@, paint);
        }
        return ;
    }
    let columns: i64 = buffer.width() as i64;
    let rows: i64 = buffer.height() as i64;
    let x_first: i64 = if left < 0 { 0 } else { left as i64 };
    let y_first: i64 = if top < 0 { 0 } else { top as i64 };
    let x_end: i64 = if width < columns - left as i64 { left as i64 + width } else { columns };
    let y_end: i64 = if height < rows - top as i64 { top as i64 + height } else { rows };
    if x_first >= x_end || y_first >= y_end {
        proof {
            lemma_paint_skip(before, before, paint, 0, 0, before.height, 0);
            lemma_paint_done(before, buffer@, paint);
        }
        return ;
    }
    proof {
        lemma_paint_skip(before, before, paint, 0, 0, y_first as int, x_first as int);
    }
    let mut y: i64 = y_first;
    while y < y_end
        invariant
            before.wf(),
            buffer.wf(),
            columns == before.width <= i32::MAX,
            rows == before.height <= i32::MAX,
            paint == rect_paint(left as int, top as int, width as int, height as int, *color),
            0 <= x_first < x_end <= before.width,
            0 <= y_first <= y <= y_end <= before.height,
            x_first == if left < 0 { 0 } else { left as int },
            y_first == if top < 0 { 0 } else { top as int },
            x_end == if left + width < before.width { left + width } else { before.width },
            y_end == if top + height < before.height { top + height } else { before.height },
            before.painted_before(buffer@, paint, y as int, x_first as int),
        decreases y_end - y,
    {
        let mut x: i64 = x_first;
        while x < x_end
            invariant
                before.wf(),
                buffer.wf(),
                columns == before.width <= i32::MAX,
                rows == before.height <= i32::MAX,
                0 <= x_first <= x <= x_end <= before.width,
                0 <= y < y_end <= before.height,
                y_first <= y,
                paint == rect_paint(left as int, top as int, width as int, height as int, *color),
                x_first == if left < 0 { 0 } else { left as int },
                y_first == if top < 0 { 0 } else { top as int },
                x_end == if left + width < before.width { left + width } else { before.width },
                y_end == if top + height < before.height { top + height } else { before.height },
                before.painted_before(buffer@, paint, y as int, x as int),
            decreases x_end - x,
        {
            proof {
                lemma_paint_step(before, buffer@, paint, y as int, x as int);
            }
            buffer.write_pixel(x as i32, y as i32, *color);
            x = x + 1;
        }
        proof {
            lemma_paint_skip(before, buffer@, paint, y as int, x_end as int, y + 1, x_first as int);
        }
        y = y + 1;
    }
    proof {
        lemma_paint_skip(before, buffer@, paint, y_end as int, x_first as int, before.height, 0);
        lemma_paint_done(before, buffer@, paint);
    }
}

/// Fills the rectangle of `width` by `height` pixels whose first pixel is the
/// one that `pos` falls into.
///
/// The rectangle may lie partly or wholly outside the buffer: the pixels of
/// it that the buffer has take `color`, and nothing else changes.
pub fn draw_rectangle(
    pos: &V2,
    width: i32,
    height: i32,
    color: &Color,
    buffer: &mut Win32OffscreenBuffer,
)
    requires
        old(buffer).wf(),
    ensures
        final(buffer).wf(),
        final(buffer)@ == old(buffer)@.repaint(
            rect_paint(
                pixel_index(pos.x as int),
                pixel_index(pos.y as int),
                width as int,
                height as int,
                *color,
            ),
        ),
{
    fill_pixels(
        to_pixel(pos.x as i128),
        to_pixel(pos.y as i128),
        width as i64,
        height as i64,
        color,
        buffer,
    )
}

/// Linear interpolation from `a` to `b` by the weight `t / 255`, fraction
/// dropped: `(1 - t/255) * a + (t/255) * b`.
pub open spec fn lerp_value(a: int, t: int, b: int) -> int {
    ((255 - t) * a + t * b) / 255
}

/// Interpolating between two channel values gives a channel value.
pub proof fn lemma_lerp_in_range(a: int, t: int, b: int)
    requires
        0 <= a <= 255,
        0 <= t <= 255,
        0 <= b <= 255,
    ensures
        0 <= (255 - t) * a + t * b <= 255 * 255,
        0 <= lerp_value(a, t, b) <= 255,
{
    let sum = (255 - t) * a + t * b;
    assert(0 <= sum <= 255 * 255) by (nonlinear_arith)
        requires
            sum == (255 - t) * a + t * b,
            0 <= a <= 255,
            0 <= t <= 255,
            0 <= b <= 255,
    ;
    lemma_div_pos_is_pos(sum, 255);
    lemma_multiply_divide_lt(sum, 255, 256);
}

/// Linear interpolation from `a` to `b` by the weight `t / 255`, fraction
/// dropped.
pub fn lerp(a: u8, t: u8, b: u8) -> (mixed: u8)
    ensures
        mixed == lerp_value(a as int, t as int, b as int),
{
    proof {
        lemma_lerp_in_range(a as int, t as int, b as int);
        assert(0 <= (255 - t) * a <= 255 * 255) by (nonlinear_arith)
            requires
                0 <= a <= 255,
                0 <= t <= 255,
        ;
        assert(0 <= t * b <= 255 * 255) by (nonlinear_arith)
            requires
                0 <= b <= 255,
                0 <= t <= 255,
        ;
    }
    let sum: u32 = (255 - t as u32) * (a as u32) + (t as u32) * (b as u32);
    (sum / 255) as u8
}

/// The colour that results when `src` is laid over `dst` with the weight
/// `alpha / 255`: blue, green and red move from `dst` toward `src`, and the
/// alpha channel becomes `alpha`.
pub open spec fn blended(dst: Color, src: Color, alpha: u8) -> Color {
    Color {
        b: lerp_value(dst.b as int, alpha as int, src.b as int) as u8,
        g: lerp_value(dst.g as int, alpha as int, src.g as int) as u8,
        r: lerp_value(dst.r as int, alpha as int, src.r as int) as u8,
        a: alpha,
    }
}

/// Lays `src` over `dst` with the weight `alpha / 255`.
pub fn blend(dst: Color, src: &Color, alpha: u8) -> (mixed: Color)
    ensures
        mixed == blended(dst, *src, alpha),
{
    Color {
        b: lerp(dst.b, alpha, src.b),
        g: lerp(dst.g, alpha, src.g),
        r: lerp(dst.r, alpha, src.r),
        a: alpha,
    }
}

/// With full weight the result is the source colour; with no weight blue,
/// green and red stay as they were. In both cases the alpha channel takes
/// the weight.
pub proof fn lemma_blend_extremes(dst: Color, src: Color)
    ensures
        blended(dst, src, 255) == (Color { a: 255, ..src }),
        blended(dst, src, 0) == (Color { a: 0, ..dst }),
{
    assert(lerp_value(dst.b as int, 255, src.b as int) == src.b);
    assert(lerp_value(dst.g as int, 255, src.g as int) == src.g);
    assert(lerp_value(dst.r as int, 255, src.r as int) == src.r);
    assert(lerp_value(dst.b as int, 0, src.b as int) == dst.b);
    assert(lerp_value(dst.g as int, 0, src.g as int) == dst.g);
    assert(lerp_value(dst.r as int, 0, src.r as int) == dst.r);
}

/// The paint of a star: every pixel of its bounding square is overlaid with
/// `color`, weighted by the alpha that the star has there; all other pixels
/// keep their colour.
pub open spec fn star_paint(star: Star, color: Color) -> spec_fn(int, int, Color) -> Color {
    |x: int, y: int, c: Color|
        if star.covers(x, y) {
            blended(c, color, star.alpha(color.a as int, x, y) as u8)
        } else {
            c
        }
}

/// Draws a star as a disc of `color` with a soft edge.
///
/// The bounding square of the star may lie partly or wholly outside the
/// buffer: the pixels of it that the buffer has are overlaid as
/// `star_paint` says, and nothing else changes.
pub fn draw_star(star: &Star, color: &Color, buffer: &mut Win32OffscreenBuffer)
    requires
        old(buffer).wf(),
    ensures
        final(buffer).wf(),
        final(buffer)@ == old(buffer)@.repaint(star_paint(*star, *color)),
{
    let ghost paint = star_paint(*star, *color);
    let ghost before = buffer@;
    if star.radius < 1 {
        proof {
            lemma_paint_skip(before, before, paint, 0, 0, before.height, 0);
            lemma_paint_done(before, buffer@, paint);
        }
        return ;
    }
    let left: i64 = star.left_pixel() as i64;
    let top: i64 = star.top_pixel() as i64;
    let side: i64 = 2 * star.radius as i64;
    let columns: i64 = buffer.width() as i64;
    let rows: i64 = buffer.height() as i64;
    let x_first: i64 = if left < 0 { 0 } else { left };
    let y_first: i64 = if top < 0 { 0 } else { top };
    let x_end: i64 = if left + side < columns { left + side } else { columns };
    let y_end: i64 = if top + side < rows { top + side } else { rows };
    if x_first >= x_end || y_first >= y_end {
        proof {
            lemma_paint_skip(before, before, paint, 0, 0, before.height, 0);
            lemma_paint_done(before, buffer@, paint);
        }
        return ;
    }
    proof {
        lemma_paint_skip(before, before, paint, 0, 0, y_first as int, x_first as int);
    }
    let mut y: i64 = y_first;
    while y < y_end
        invariant
            before.wf(),
            buffer.wf(),
            1 <= star.radius,
            columns == before.width <= i32::MAX,
            rows == before.height <= i32::MAX,
            paint == star_paint(*star, *color),
            left == star.left(),
            top == star.top(),
            side == 2 * star.radius,
            0 <= x_first < x_end <= before.width,
            0 <= y_first <= y <= y_end <= before.height,
            x_first == if left < 0 { 0 } else { left as int },
            y_first == if top < 0 { 0 } else { top as int },
            x_end == if left + side < before.width { left + side } else { before.width },
            y_end == if top + side < before.height { top + side } else { before.height },
            before.painted_before(buffer@, paint, y as int, x_first as int),
        decreases y_end - y,
    {
        let mut x: i64 = x_first;
        while x < x_end
            invariant
                before.wf(),
                buffer.wf(),
                1 <= star.radius,
                columns == before.width <= i32::MAX,
                rows == before.height <= i32::MAX,
                paint == star_paint(*star, *color),
                left == star.left(),
                top == star.top(),
                side == 2 * star.radius,
                0 <= x_first <= x <= x_end <= before.width,
                0 <= y < y_end <= before.height,
                y_first <= y,
                x_first == if left < 0 { 0 } else { left as int },
                y_first == if top < 0 { 0 } else { top as int },
                x_end == if left + side < before.width { left + side } else { before.width },
                y_end == if top + side < before.height { top + side } else { before.height },
                before.painted_before(buffer@, paint, y as int, x as int),
            decreases x_end - x,
        {
            proof {
                lemma_paint_step(before, buffer@, paint, y as int, x as int);
                lemma_alpha_in_range(*star, color.a as int, x as int, y as int);
            }
            let alpha = star_alpha(star, color.a, x as i32, y as i32);
            let under = buffer.read_pixel(x as i32, y as i32);
            buffer.write_pixel(x as i32, y as i32, blend(under, color, alpha));
            x = x + 1;
        }
        proof {
            lemma_paint_skip(before, buffer@, paint, y as int, x_end as int, y + 1, x_first as int);
        }
        y = y + 1;
    }
    proof {
        lemma_paint_skip(before, buffer@, paint, y_end as int, x_first as int, before.height, 0);
        lemma_paint_done(before, buffer@, paint);
    }
}

/// Clipping of a rectangle: whatever part of the rectangle lies outside the
/// raster, filling it writes no byte outside the pixels of the raster, and
/// a pixel of the raster takes the colour if and only if it lies in the
/// rectangle.
pub proof fn lemma_rectangle_clipped(
    r: Raster,
    left: int,
    top: int,
    width: int,
    height: int,
    color: Color,
)
    requires
        r.wf(),
    ensures
        r.repaint(rect_paint(left, top, width, height, color)).same_shape(r),
        r.same_padding(r.repaint(rect_paint(left, top, width, height, color))),
        forall|x: int, y: int|
            r.contains(x, y) ==> #[trigger] r.repaint(
                rect_paint(left, top, width, height, color),
            ).pixel(x, y) == if left <= x < left + width && top <= y < top + height {
                color
            } else {
                r.pixel(x, y)
            },
{
    lemma_repaint(r, rect_paint(left, top, width, height, color));
}

/// Clipping of a star: whatever part of its bounding square lies outside
/// the raster, drawing it writes no byte outside the pixels of the raster,
/// and a pixel of the raster is overlaid, with the alpha that the star has
/// there, if and only if it lies in the square.
pub proof fn lemma_star_clipped(r: Raster, star: Star, color: Color)
    requires
        r.wf(),
    ensures
        r.repaint(star_paint(star, color)).same_shape(r),
        r.same_padding(r.repaint(star_paint(star, color))),
        forall|x: int, y: int|
            r.contains(x, y) ==> #[trigger] r.repaint(star_paint(star, color)).pixel(x, y)
                == if star.covers(x, y) {
                blended(r.pixel(x, y), color, star.alpha(color.a as int, x, y) as u8)
            } else {
                r.pixel(x, y)
            },
{
    lemma_repaint(r, star_paint(star, color));
}

/// Where a star of full base alpha is fully opaque, drawing it replaces the
/// pixel by the colour of the star. Where it is fully transparent, blue,
/// green and red of the pixel stay and its alpha channel becomes zero, so a
/// pixel whose alpha was zero stays as it was.
pub proof fn lemma_star_core_and_rim(star: Star, color: Color, x: int, y: int, under: Color)
    requires
        1 <= star.radius,
    ensures
        star.opacity(x, y) == star.reach() && color.a == 255 ==> star_paint(star, color)(
            x,
            y,
            under,
        ) == if star.covers(x, y) {
            color
        } else {
            under
        },
        star.opacity(x, y) == 0 ==> star_paint(star, color)(x, y, under) == if star.covers(
            x,
            y,
        ) {
            Color { a: 0, ..under }
        } else {
            under
        },
        star.opacity(x, y) == 0 && under.a == 0 ==> star_paint(star, color)(x, y, under) == under,
{
    let reach = star.reach();
    lemma_blend_extremes(under, color);
    if star.opacity(x, y) == reach {
        let base = color.a as int;
        assert(2 * base * reach + reach == base * (2 * reach) + reach) by (nonlinear_arith);
        vstd::arithmetic::div_mod::lemma_fundamental_div_mod_converse(
            2 * base * reach + reach,
            2 * reach,
            base,
            reach,
        );
        assert(star.alpha(base, x, y) == base);
    }
    if star.opacity(x, y) == 0 {
        let base = color.a as int;
        assert(2 * base * 0 == 0 && reach == 0 * (2 * reach) + reach);
        vstd::arithmetic::div_mod::lemma_fundamental_div_mod_converse(reach, 2 * reach, 0, reach);
        assert(star.alpha(base, x, y) == 0);
    }
}

} // verus!
