use vstd::prelude::*;
use vstd::arithmetic::div_mod::{
    lemma_div_pos_is_pos, lemma_fundamental_div_mod, lemma_mod_pos_bound, lemma_multiply_divide_le,
};
use crate::bitmap::{LoadedBitmap, Texture, lemma_texel_bytes};
use crate::buffer::Win32OffscreenBuffer;
use crate::color::Color;
use crate::raster::{Raster, lemma_paint_done, lemma_paint_skip, lemma_paint_step};
use crate::vector::{V2, UNITS_PER_PIXEL};

verus! {

/// The last whole pixel at or before a coordinate.
pub open spec fn floor_pixel(v: int) -> int {
    v / (UNITS_PER_PIXEL as int)
}

/// The first whole pixel at or after a coordinate.
pub open spec fn ceil_pixel(v: int) -> int {
    -((-v) / (UNITS_PER_PIXEL as int))
}

/// The smallest of four numbers.
pub open spec fn min4(a: int, b: int, c: int, d: int) -> int {
    let ab = if a <= b { a } else { b };
    let cd = if c <= d { c } else { d };
    if ab <= cd { ab } else { cd }
}

/// The largest of four numbers.
pub open spec fn max4(a: int, b: int, c: int, d: int) -> int {
    let ab = if a >= b { a } else { b };
    let cd = if c >= d { c } else { d };
    if ab >= cd { ab } else { cd }
}

/// The number of `0 ..= limit - 1` that is nearest to `v`.
pub open spec fn clamp_index(v: int, limit: int) -> int {
    if v < 0 {
        0
    } else if v > limit - 1 {
        limit - 1
    } else {
        v
    }
}

/// The first of the pixels `0 ..= limit - 1` that the coordinates `a`, `b`,
/// `c` and `d` span, or the nearest of them.
pub open spec fn span_start(a: int, b: int, c: int, d: int, limit: int) -> int {
    clamp_index(min4(floor_pixel(a), floor_pixel(b), floor_pixel(c), floor_pixel(d)), limit)
}

/// The last of the pixels `0 ..= limit - 1` that the coordinates `a`, `b`,
/// `c` and `d` span, or the nearest of them.
pub open spec fn span_end(a: int, b: int, c: int, d: int, limit: int) -> int {
    clamp_index(max4(ceil_pixel(a), ceil_pixel(b), ceil_pixel(c), ceil_pixel(d)), limit)
}

/// The pixels that a blit covers: columns `x_min ..= x_max` of rows
/// `y_min ..= y_max`.
#[derive(Clone, Copy, Debug, PartialEq, Eq, Structural)]
pub struct BlitBox {
    pub x_min: i32,
    pub x_max: i32,
    pub y_min: i32,
    pub y_max: i32,
}

impl BlitBox {
    /// The bounding box of the parallelogram with the corners `origin`,
    /// `x_axis`, `y_axis` and `x_axis + y_axis - origin`, widened to whole
    /// pixels and then held to a buffer of `width` by `height` pixels.
    pub open spec fn around(origin: V2, x_axis: V2, y_axis: V2, width: int, height: int) -> BlitBox {
        let far_x = x_axis.x + y_axis.x - origin.x;
        let far_y = x_axis.y + y_axis.y - origin.y;
        BlitBox {
            x_min: span_start(origin.x as int, x_axis.x as int, far_x, y_axis.x as int, width) as i32,
            x_max: span_end(origin.x as int, x_axis.x as int, far_x, y_axis.x as int, width) as i32,
            y_min: span_start(origin.y as int, x_axis.y as int, far_y, y_axis.y as int, height) as i32,
            y_max: span_end(origin.y as int, x_axis.y as int, far_y, y_axis.y as int, height) as i32,
        }
    }

    /// Whether pixel `(x, y)` lies in the box.
    pub open spec fn covers(self, x: int, y: int) -> bool {
        self.x_min <= x <= self.x_max && self.y_min <= y <= self.y_max
    }

    /// Whether the box has no extent in one direction, so that no position
    /// within it can be computed.
    pub open spec fn is_degenerate(self) -> bool {
        self.x_min >= self.x_max || self.y_min >= self.y_max
    }

    /// Whether the box lies inside a raster.
    pub open spec fn inside(self, r: Raster) -> bool {
        &&& 0 <= self.x_min <= self.x_max < r.width
        &&& 0 <= self.y_min <= self.y_max < r.height
    }
}

/// Position of `p` within `min ..= max`, counted back from `max` and
/// stretched over the texels `0 ..= size - 2`, as a multiple of
/// `1 / (max - min)`.
pub open spec fn stretched(p: int, max: int, size: int) -> int {
    (max - p) * (size - 2)
}

/// The texel at or before the place in the bitmap that belongs to `p`.
pub open spec fn texel_index(p: int, min: int, max: int, size: int) -> int {
    stretched(p, max, size) / (max - min)
}

/// How far the place in the bitmap that belongs to `p` lies behind
/// `texel_index`, as a multiple of `1 / (max - min)`.
pub open spec fn texel_part(p: int, min: int, max: int, size: int) -> int {
    stretched(p, max, size) % (max - min)
}

/// For every pixel of the box the texel found and its right or lower
/// neighbour lie in the bitmap.
pub proof fn lemma_texel_in_bounds(p: int, min: int, max: int, size: int)
    requires
        min < max,
        min <= p <= max,
        2 <= size,
    ensures
        0 <= texel_index(p, min, max, size) <= size - 2,
        0 <= texel_part(p, min, max, size) < max - min,
        stretched(p, max, size) == texel_index(p, min, max, size) * (max - min) + texel_part(
            p,
            min,
            max,
            size,
        ),
{
    let s = stretched(p, max, size);
    let d = max - min;
    assert(0 <= s <= d * (size - 2)) by (nonlinear_arith)
        requires
            s == (max - p) * (size - 2),
            0 <= max - p <= d,
            0 <= size - 2,
    ;
    lemma_div_pos_is_pos(s, d);
    lemma_multiply_divide_le(s, d, size - 2);
    lemma_mod_pos_bound(s, d);
    lemma_fundamental_div_mod(s, d);
    assert(d * (s / d) == (s / d) * d) by (nonlinear_arith);
}

/// Bilinear interpolation of four values, times `dx * dy`: first along x by
/// the weight `fx / dx`, then along y by the weight `fy / dy`.
pub open spec fn bilinear(
    c00: int,
    c01: int,
    c10: int,
    c11: int,
    fx: int,
    dx: int,
    fy: int,
    dy: int,
) -> int {
    (dy - fy) * ((dx - fx) * c00 + fx * c01) + fy * ((dx - fx) * c10 + fx * c11)
}

/// The channel value that results when the interpolated value `value / q`
/// is laid over `dst` with the weight `(alpha / q) / 255`, fraction dropped.
pub open spec fn overlay(dst: int, value: int, alpha: int, q: int) -> int {
    ((255 * q - alpha) * dst * q + alpha * value) / (255 * (q * q))
}

/// Interpolating between channel values gives a channel value, times
/// `dx * dy`.
pub proof fn lemma_bilinear_in_range(
    c00: int,
    c01: int,
    c10: int,
    c11: int,
    fx: int,
    dx: int,
    fy: int,
    dy: int,
)
    requires
        0 <= c00 <= 255,
        0 <= c01 <= 255,
        0 <= c10 <= 255,
        0 <= c11 <= 255,
        0 <= fx <= dx,
        0 <= fy <= dy,
    ensures
        0 <= bilinear(c00, c01, c10, c11, fx, dx, fy, dy) <= 255 * (dx * dy),
        0 <= (dx - fx) * c00 + fx * c01 <= 255 * dx,
        0 <= (dx - fx) * c10 + fx * c11 <= 255 * dx,
        0 <= (dx - fx) * c00 <= 255 * dx,
        0 <= fx * c01 <= 255 * dx,
        0 <= (dx - fx) * c10 <= 255 * dx,
        0 <= fx * c11 <= 255 * dx,
        0 <= (dy - fy) * ((dx - fx) * c00 + fx * c01) <= 255 * (dx * dy),
        0 <= fy * ((dx - fx) * c10 + fx * c11) <= 255 * (dx * dy),
{
    let upper = (dx - fx) * c00 + fx * c01;
    let lower = (dx - fx) * c10 + fx * c11;
    assert(0 <= (dx - fx) * c00 <= 255 * (dx - fx)) by (nonlinear_arith)
        requires
            0 <= c00 <= 255,
            0 <= dx - fx,
    ;
    assert(0 <= fx * c01 <= 255 * fx) by (nonlinear_arith)
        requires
            0 <= c01 <= 255,
            0 <= fx,
    ;
    assert(0 <= (dx - fx) * c10 <= 255 * (dx - fx)) by (nonlinear_arith)
        requires
            0 <= c10 <= 255,
            0 <= dx - fx,
    ;
    assert(0 <= fx * c11 <= 255 * fx) by (nonlinear_arith)
        requires
            0 <= c11 <= 255,
            0 <= fx,
    ;
    assert(0 <= (dy - fy) * upper <= 255 * (dx * (dy - fy))) by (nonlinear_arith)
        requires
            0 <= upper <= 255 * dx,
            0 <= dy - fy,
    ;
    assert(0 <= fy * lower <= 255 * (dx * fy)) by (nonlinear_arith)
        requires
            0 <= lower <= 255 * dx,
            0 <= fy,
    ;
    assert(dx * (dy - fy) + dx * fy == dx * dy) by (nonlinear_arith);
    assert(0 <= dx * fy && 0 <= dx * (dy - fy)) by (nonlinear_arith)
        requires
            0 <= dx,
            0 <= fy <= dy,
    ;
}

/// Laying an interpolated value over a channel value gives a channel value.
pub proof fn lemma_overlay_in_range(dst: int, value: int, alpha: int, q: int)
    requires
        0 <= dst <= 255,
        0 < q,
        0 <= value <= 255 * q,
        0 <= alpha <= 255 * q,
    ensures
        0 <= overlay(dst, value, alpha, q) <= 255,
        0 <= (255 * q - alpha) * dst <= 65025 * q,
        0 <= (255 * q - alpha) * dst * q <= 65025 * (q * q),
        0 <= alpha * value <= 65025 * (q * q),
        0 <= (255 * q - alpha) * dst * q + alpha * value <= 65025 * (q * q),
        0 < 255 * (q * q),
        0 <= alpha / q <= 255,
{
    let rest = 255 * q - alpha;
    assert(0 <= rest * dst <= 255 * rest) by (nonlinear_arith)
        requires
            0 <= rest,
            0 <= dst <= 255,
    ;
    assert(0 <= rest * dst * q <= 255 * rest * q) by (nonlinear_arith)
        requires
            0 <= rest * dst <= 255 * rest,
            0 < q,
    ;
    assert(0 <= alpha * value <= alpha * (255 * q)) by (nonlinear_arith)
        requires
            0 <= alpha,
            0 <= value <= 255 * q,
    ;
    assert(255 * rest * q + alpha * (255 * q) == 65025 * (q * q)) by (nonlinear_arith)
        requires
            rest == 255 * q - alpha,
    ;
    assert(0 <= 255 * rest * q <= 65025 * (q * q)) by (nonlinear_arith)
        requires
            0 <= rest <= 255 * q,
            0 < q,
    ;
    assert(0 <= alpha * (255 * q) <= 65025 * (q * q)) by (nonlinear_arith)
        requires
            0 <= alpha <= 255 * q,
            0 < q,
    ;
    assert(0 < 255 * (q * q)) by (nonlinear_arith)
        requires
            0 < q,
    ;
    assert(0 <= (255 * q - alpha) * dst <= 65025 * q);
    assert(0 <= (255 * q - alpha) * dst * q <= 65025 * (q * q));
    let top = rest * dst * q + alpha * value;
    lemma_div_pos_is_pos(top, 255 * (q * q));
    assert((255 * (q * q)) * 255 == 65025 * (q * q));
    lemma_multiply_divide_le(top, 255 * (q * q), 255);
    lemma_div_pos_is_pos(alpha, q);
    assert(q * 255 == 255 * q);
    lemma_multiply_divide_le(alpha, q, 255);
}

/// Why a bitmap cannot be drawn.
#[derive(Clone, Copy, Debug, PartialEq, Eq, Structural)]
pub enum BlitError {
    /// The bitmap has fewer than two columns or rows, so that it holds no
    /// square of four texels to interpolate in.
    BitmapTooSmall,
    /// The box has no extent in one direction, so that no position within
    /// it can be computed.
    DegenerateBox,
}

/// Why the bitmap cannot be drawn into the box, if it cannot.
pub open spec fn blit_defect(t: Texture, b: BlitBox) -> Option<BlitError> {
    if t.width < 2 || t.height < 2 {
        Some(BlitError::BitmapTooSmall)
    } else if b.is_degenerate() {
        Some(BlitError::DegenerateBox)
    } else {
        None
    }
}

/// The colour that pixel `(x, y)` of the box takes where it had `dst`.
///
/// The place of the pixel within the box selects a place in the bitmap. The
/// four texels around it are interpolated, channel by channel. Blue, green
/// and red are laid over `dst` with the interpolated alpha as weight; the
/// alpha channel takes the interpolated alpha, fraction dropped.
pub open spec fn sample(t: Texture, b: BlitBox, x: int, y: int, dst: Color) -> Color {
    let dx = b.x_max - b.x_min;
    let dy = b.y_max - b.y_min;
    let tx = texel_index(x, b.x_min as int, b.x_max as int, t.width);
    let ty = texel_index(y, b.y_min as int, b.y_max as int, t.height);
    let fx = texel_part(x, b.x_min as int, b.x_max as int, t.width);
    let fy = texel_part(y, b.y_min as int, b.y_max as int, t.height);
    let c00 = t.texel(tx, ty);
    let c01 = t.texel(tx + 1, ty);
    let c10 = t.texel(tx, ty + 1);
    let c11 = t.texel(tx + 1, ty + 1);
    let q = dx * dy;
    let alpha = bilinear(c00.a as int, c01.a as int, c10.a as int, c11.a as int, fx, dx, fy, dy);
    Color {
        b: overlay(
            dst.b as int,
            bilinear(c00.b as int, c01.b as int, c10.b as int, c11.b as int, fx, dx, fy, dy),
            alpha,
            q,
        ) as u8,
        g: overlay(
            dst.g as int,
            bilinear(c00.g as int, c01.g as int, c10.g as int, c11.g as int, fx, dx, fy, dy),
            alpha,
            q,
        ) as u8,
        r: overlay(
            dst.r as int,
            bilinear(c00.r as int, c01.r as int, c10.r as int, c11.r as int, fx, dx, fy, dy),
            alpha,
            q,
        ) as u8,
        a: (alpha / q) as u8,
    }
}

/// The paint of a bitmap stretched over a box: every pixel of the box takes
/// its sample, all others keep their colour.
pub open spec fn bmp_paint(t: Texture, b: BlitBox) -> spec_fn(int, int, Color) -> Color {
    |x: int, y: int, c: Color|
        if b.covers(x, y) {
            sample(t, b, x, y, c)
        } else {
            c
        }
}

/// The four texels that the sample of a pixel of the box is interpolated
/// from lie in the bitmap, and so do their bytes: sampling never reads
/// outside the pixel data.
pub proof fn lemma_sample_reads_inside(t: Texture, b: BlitBox, x: int, y: int)
    requires
        t.wf(),
        blit_defect(t, b) is None,
        b.covers(x, y),
    ensures
        0 <= texel_index(x, b.x_min as int, b.x_max as int, t.width) <= t.width - 2,
        0 <= texel_index(y, b.y_min as int, b.y_max as int, t.height) <= t.height - 2,
        t.holds_texel(
            texel_index(x, b.x_min as int, b.x_max as int, t.width),
            texel_index(y, b.y_min as int, b.y_max as int, t.height),
        ),
        t.holds_texel(
            texel_index(x, b.x_min as int, b.x_max as int, t.width) + 1,
            texel_index(y, b.y_min as int, b.y_max as int, t.height),
        ),
        t.holds_texel(
            texel_index(x, b.x_min as int, b.x_max as int, t.width),
            texel_index(y, b.y_min as int, b.y_max as int, t.height) + 1,
        ),
        t.holds_texel(
            texel_index(x, b.x_min as int, b.x_max as int, t.width) + 1,
            texel_index(y, b.y_min as int, b.y_max as int, t.height) + 1,
        ),
{
    lemma_texel_in_bounds(x, b.x_min as int, b.x_max as int, t.width);
    lemma_texel_in_bounds(y, b.y_min as int, b.y_max as int, t.height);
    let tx = texel_index(x, b.x_min as int, b.x_max as int, t.width);
    let ty = texel_index(y, b.y_min as int, b.y_max as int, t.height);
    lemma_texel_bytes(t, tx, ty);
    lemma_texel_bytes(t, tx + 1, ty);
    lemma_texel_bytes(t, tx, ty + 1);
    lemma_texel_bytes(t, tx + 1, ty + 1);
}

/// Largest product of the extents of a box inside a buffer.
pub const MAX_BOX_AREA: u64 = 0x2000_0000;

/// A box inside a raster has fewer pixels than the raster.
pub proof fn lemma_box_area(r: Raster, b: BlitBox)
    requires
        r.wf(),
        b.inside(r),
    ensures
        0 <= (b.x_max - b.x_min) * (b.y_max - b.y_min) < MAX_BOX_AREA,
{
    let dx = b.x_max - b.x_min;
    let dy = b.y_max - b.y_min;
    assert(0 <= dx * dy <= r.width * r.height) by (nonlinear_arith)
        requires
            0 <= dx <= r.width,
            0 <= dy <= r.height,
    ;
    assert(4 * (r.width * r.height) <= r.pitch * r.height) by (nonlinear_arith)
        requires
            4 * r.width <= r.pitch,
            0 <= r.height,
    ;
}

/// The last whole pixel at or before a coordinate.
fn floor_units(v: i128) -> (p: i128)
    requires
        -0x4000_0000_0000_0000_0000 <= v <= 0x4000_0000_0000_0000_0000,
    ensures
        p == floor_pixel(v as int),
{
    if v >= 0 {
        v / (UNITS_PER_PIXEL as i128)
    } else {
        -((-v + (UNITS_PER_PIXEL as i128 - 1)) / (UNITS_PER_PIXEL as i128))
    }
}

/// The first whole pixel at or after a coordinate.
fn ceil_units(v: i128) -> (p: i128)
    requires
        -0x4000_0000_0000_0000_0000 <= v <= 0x4000_0000_0000_0000_0000,
    ensures
        p == ceil_pixel(v as int),
{
    -floor_units(-v)
}

/// The number of `0 ..= limit - 1` that is nearest to `v`.
fn clamp_to_index(v: i128, limit: i32) -> (c: i32)
    requires
        1 <= limit,
    ensures
        c == clamp_index(v as int, limit as int),
        0 <= c < limit,
{
    if v < 0 {
        0
    } else if v > (limit - 1) as i128 {
        limit - 1
    } else {
        v as i32
    }
}

/// The first and the last of the pixels `0 ..= limit - 1` that four
/// coordinates span.
fn span(a: i128, b: i128, c: i128, d: i128, limit: i32) -> (ends: (i32, i32))
    requires
        1 <= limit,
        -0x4000_0000_0000_0000_0000 <= a <= 0x4000_0000_0000_0000_0000,
        -0x4000_0000_0000_0000_0000 <= b <= 0x4000_0000_0000_0000_0000,
        -0x4000_0000_0000_0000_0000 <= c <= 0x4000_0000_0000_0000_0000,
        -0x4000_0000_0000_0000_0000 <= d <= 0x4000_0000_0000_0000_0000,
    ensures
        ends.0 == span_start(a as int, b as int, c as int, d as int, limit as int),
        ends.1 == span_end(a as int, b as int, c as int, d as int, limit as int),
        0 <= ends.0 <= ends.1 < limit,
{
    let mut low = floor_units(a);
    let mut high = ceil_units(a);
    let fb = floor_units(b);
    let cb = ceil_units(b);
    let fc = floor_units(c);
    let cc = ceil_units(c);
    let fd = floor_units(d);
    let cd = ceil_units(d);
    if fb < low {
        low = fb;
    }
    if fc < low {
        low = fc;
    }
    if fd < low {
        low = fd;
    }
    if cb > high {
        high = cb;
    }
    if cc > high {
        high = cc;
    }
    if cd > high {
        high = cd;
    }
    (clamp_to_index(low, limit), clamp_to_index(high, limit))
}

/// The box that a blit of the parallelogram with the corners `origin`,
/// `x_axis`, `y_axis` and `x_axis + y_axis - origin` covers in a buffer of
/// `width` by `height` pixels.
pub fn bounding_box(origin: &V2, x_axis: V2, y_axis: V2, width: i32, height: i32) -> (b: BlitBox)
    requires
        1 <= width,
        1 <= height,
    ensures
        b == BlitBox::around(*origin, x_axis, y_axis, width as int, height as int),
        0 <= b.x_min <= b.x_max < width,
        0 <= b.y_min <= b.y_max < height,
{
    let far_x: i128 = x_axis.x as i128 + y_axis.x as i128 - origin.x as i128;
    let far_y: i128 = x_axis.y as i128 + y_axis.y as i128 - origin.y as i128;
    let (x_min, x_max) = span(origin.x as i128, x_axis.x as i128, far_x, y_axis.x as i128, width);
    let (y_min, y_max) = span(origin.y as i128, x_axis.y as i128, far_y, y_axis.y as i128, height);
    BlitBox { x_min, x_max, y_min, y_max }
}

/// Bilinear interpolation of four channel values, times `dx * dy`.
fn bilinear_mix(c00: u8, c01: u8, c10: u8, c11: u8, fx: u64, dx: u64, fy: u64, dy: u64) -> (value:
    u64)
    requires
        fx <= dx,
        fy <= dy,
        dx * dy <= MAX_BOX_AREA,
        dx <= 0x8000_0000,
        dy <= 0x8000_0000,
    ensures
        value == bilinear(
            c00 as int,
            c01 as int,
            c10 as int,
            c11 as int,
            fx as int,
            dx as int,
            fy as int,
            dy as int,
        ),
        value <= 255 * (dx * dy),
{
    proof {
        lemma_bilinear_in_range(
            c00 as int,
            c01 as int,
            c10 as int,
            c11 as int,
            fx as int,
            dx as int,
            fy as int,
            dy as int,
        );
    }
    let upper: u64 = (dx - fx) * (c00 as u64) + fx * (c01 as u64);
    let lower: u64 = (dx - fx) * (c10 as u64) + fx * (c11 as u64);
    (dy - fy) * upper + fy * lower
}

/// Lays the interpolated value `value / q` over `dst` with the weight
/// `(alpha / q) / 255`.
fn overlay_channel(dst: u8, value: u64, alpha: u64, q: u64) -> (mixed: u8)
    requires
        0 < q <= MAX_BOX_AREA,
        value <= 255 * q,
        alpha <= 255 * q,
    ensures
        mixed == overlay(dst as int, value as int, alpha as int, q as int),
{
    proof {
        lemma_overlay_in_range(dst as int, value as int, alpha as int, q as int);
        assert(q * q <= 0x2000_0000 * 0x2000_0000) by (nonlinear_arith)
            requires
                0 < q <= 0x2000_0000,
        ;
    }
    let wide: u128 = q as u128;
    let rest: u128 = 255 * wide - alpha as u128;
    let kept: u128 = rest * (dst as u128) * wide;
    let added: u128 = (alpha as u128) * (value as u128);
    ((kept + added) / (255 * (wide * wide))) as u8
}

/// The texel and the part behind it that belong to `p` in `min ..= max`.
fn locate(p: i32, min: i32, max: i32, size: i32) -> (place: (i32, u64))
    requires
        min < max,
        min <= p <= max,
        0 <= min,
        2 <= size,
    ensures
        place.0 == texel_index(p as int, min as int, max as int, size as int),
        place.1 == texel_part(p as int, min as int, max as int, size as int),
        0 <= place.0 <= size - 2,
        place.1 < max - min,
{
    proof {
        lemma_texel_in_bounds(p as int, min as int, max as int, size as int);
        assert(0 <= (max - p) * (size - 2) <= 0x8000_0000 * 0x8000_0000) by (nonlinear_arith)
            requires
                0 <= max - p <= 0x8000_0000,
                0 <= size - 2 <= 0x8000_0000,
        ;
    }
    let stretched: i64 = (max - p) as i64 * (size - 2) as i64;
    let extent: i64 = (max - min) as i64;
    ((stretched / extent) as i32, (stretched % extent) as u64)
}

/// The colour that pixel `(x, y)` of the box takes where it had `dst`.
fn sample_pixel(bmp: &LoadedBitmap, b: &BlitBox, x: i32, y: i32, dst: Color) -> (c: Color)
    requires
        bmp.wf(),
        blit_defect(bmp@, *b) is None,
        b.covers(x as int, y as int),
        0 <= b.x_min,
        0 <= b.y_min,
        (b.x_max - b.x_min) * (b.y_max - b.y_min) <= MAX_BOX_AREA,
    ensures
        c == sample(bmp@, *b, x as int, y as int, dst),
{
    let (tx, fx) = locate(x, b.x_min, b.x_max, bmp.width());
    let (ty, fy) = locate(y, b.y_min, b.y_max, bmp.height());
    let dx: u64 = (b.x_max - b.x_min) as u64;
    let dy: u64 = (b.y_max - b.y_min) as u64;
    assert(0 < dx * dy) by (nonlinear_arith)
        requires
            0 < dx,
            0 < dy,
    ;
    let q: u64 = dx * dy;
    let c00 = bmp.read_texel(tx, ty);
    let c01 = bmp.read_texel(tx + 1, ty);
    let c10 = bmp.read_texel(tx, ty + 1);
    let c11 = bmp.read_texel(tx + 1, ty + 1);
    let alpha = bilinear_mix(c00.a, c01.a, c10.a, c11.a, fx, dx, fy, dy);
    proof {
        lemma_overlay_in_range(0, 0, alpha as int, q as int);
    }
    Color {
        b: overlay_channel(dst.b, bilinear_mix(c00.b, c01.b, c10.b, c11.b, fx, dx, fy, dy), alpha, q),
        g: overlay_channel(dst.g, bilinear_mix(c00.g, c01.g, c10.g, c11.g, fx, dx, fy, dy), alpha, q),
        r: overlay_channel(dst.r, bilinear_mix(c00.r, c01.r, c10.r, c11.r, fx, dx, fy, dy), alpha, q),
        a: (alpha / q) as u8,
    }
}

/// Draws a bitmap, stretched over the bounding box of the parallelogram
/// with the corners `origin`, `x_axis`, `y_axis` and
/// `x_axis + y_axis - origin`, with bilinear interpolation.
///
/// The box is held to the buffer. Every pixel of it takes its sample of the
/// bitmap, laid over what the pixel held; nothing else changes. A bitmap
/// with fewer than two columns or rows and a box without extent are
/// refused, and the buffer then stays as it is.
pub fn render_bmp(
    origin: &V2,
    x_axis: V2,
    y_axis: V2,
    bmp: &LoadedBitmap,
    buffer: &mut Win32OffscreenBuffer,
) -> (done: Result<(), BlitError>)
    requires
        old(buffer).wf(),
        bmp.wf(),
    ensures
        final(buffer).wf(),
        match done {
            Ok(()) => {
                &&& blit_defect(
                    bmp@,
                    BlitBox::around(
                        *origin,
                        x_axis,
                        y_axis,
                        old(buffer)@.width,
                        old(buffer)@.height,
                    ),
                ) is None
                &&& final(buffer)@ == old(buffer)@.repaint(
                    bmp_paint(
                        bmp@,
                        BlitBox::around(
                            *origin,
                            x_axis,
                            y_axis,
                            old(buffer)@.width,
                            old(buffer)@.height,
                        ),
                    ),
                )
            },
            Err(error) => {
                &&& blit_defect(
                    bmp@,
                    BlitBox::around(
                        *origin,
                        x_axis,
                        y_axis,
                        old(buffer)@.width,
                        old(buffer)@.height,
                    ),
                ) == Some(error)
                &&& final(buffer)@ == old(buffer)@
            },
        },
{
    let columns = buffer.width();
    let rows = buffer.height();
    let b = bounding_box(origin, x_axis, y_axis, columns, rows);
    if bmp.width() < 2 || bmp.height() < 2 {
        return Err(BlitError::BitmapTooSmall);
    }
    if b.x_min >= b.x_max || b.y_min >= b.y_max {
        return Err(BlitError::DegenerateBox);
    }
    let ghost paint = bmp_paint(bmp@, b);
    let ghost before = buffer@;
    proof {
        lemma_box_area(before, b);
        lemma_paint_skip(before, before, paint, 0, 0, b.y_min as int, b.x_min as int);
    }
    let mut y: i32 = b.y_min;
    while y <= b.y_max
        invariant
            before.wf(),
            buffer.wf(),
            bmp.wf(),
            blit_defect(bmp@, b) is None,
            b.inside(before),
            columns == before.width,
            rows == before.height,
            (b.x_max - b.x_min) * (b.y_max - b.y_min) <= MAX_BOX_AREA,
            paint == bmp_paint(bmp@, b),
            b.y_min <= y <= b.y_max + 1,
            before.painted_before(buffer@, paint, y as int, b.x_min as int),
        decreases b.y_max + 1 - y,
    {
        let mut x: i32 = b.x_min;
        while x <= b.x_max
            invariant
                before.wf(),
                buffer.wf(),
                bmp.wf(),
                blit_defect(bmp@, b) is None,
                b.inside(before),
                columns == before.width,
                rows == before.height,
                (b.x_max - b.x_min) * (b.y_max - b.y_min) <= MAX_BOX_AREA,
                paint == bmp_paint(bmp@, b),
                b.y_min <= y <= b.y_max,
                b.x_min <= x <= b.x_max + 1,
                before.painted_before(buffer@, paint, y as int, x as int),
            decreases b.x_max + 1 - x,
        {
            proof {
                lemma_paint_step(before, buffer@, paint, y as int, x as int);
            }
            let under = buffer.read_pixel(x, y);
            let over = sample_pixel(bmp, &b, x, y, under);
            buffer.write_pixel(x, y, over);
            x = x + 1;
        }
        proof {
            lemma_paint_skip(before, buffer@, paint, y as int, b.x_max + 1, y + 1, b.x_min as int);
        }
        y = y + 1;
    }
    proof {
        lemma_paint_skip(before, buffer@, paint, b.y_max + 1, b.x_min as int, before.height, 0);
        lemma_paint_done(before, buffer@, paint);
    }
    Ok(())
}

} // verus!
