use vstd::prelude::*;
use vstd::arithmetic::div_mod::{lemma_div_pos_is_pos, lemma_multiply_divide_lt};
use rand::rngs::ThreadRng;
use crate::buffer::Win32OffscreenBuffer;
use crate::color::Color;
use crate::draw::{draw_star, fill_pixels, rect_paint, star_paint};
use crate::random::random_below;
use crate::raster::Raster;
use crate::arith::{floor_sqrt, lemma_floor_sqrt, lemma_floor_sqrt_at_least};
use crate::vector::{V2, UNITS_PER_PIXEL, pixel_index, to_pixel, v2_length};

verus! {

/// Opacity, in hundredths, from which a star is drawn solid.
pub const SOLID_CORE_PERCENT: i64 = 85;

/// Pixels per second that a star falls for each pixel of its radius.
pub const SPEED_FACTOR: i64 = 4;

/// Smallest radius of a star that enters the scene.
pub const MIN_STAR_RADIUS: i32 = 2;

/// Bound that the radius of a star that enters the scene stays under.
pub const MAX_STAR_RADIUS: i32 = 12;

/// Number of stars in the scene.
pub const NUMBER_OF_STARS: usize = 60;

/// The nearest number that a coordinate can hold.
pub open spec fn clamp_to_i64(v: int) -> int {
    if v < i64::MIN {
        i64::MIN as int
    } else if v > i64::MAX {
        i64::MAX as int
    } else {
        v
    }
}

/// Half of a radius, fraction dropped.
pub open spec fn halved(radius: int) -> int {
    if radius >= 0 {
        radius / 2
    } else {
        -((-radius) / 2)
    }
}

/// The colours of the scene.
#[derive(Clone, Copy, Debug, PartialEq, Eq, Structural)]
pub struct Palette {
    /// Colour behind the stars, with which a star is erased.
    pub background: Color,
    /// Colour of the stars; its alpha is the alpha of a star at its centre.
    pub star: Color,
}

impl Default for Palette {
    /// A deep violet sky with yellow stars.
    fn default() -> (palette: Palette)
        ensures
            palette == (Palette {
                background: Color { r: 64, g: 18, b: 139, a: 255 },
                star: Color { r: 249, g: 217, b: 73, a: 255 },
            }),
    {
        Palette {
            background: Color { r: 64, g: 18, b: 139, a: 255 },
            star: Color { r: 249, g: 217, b: 73, a: 255 },
        }
    }
}

/// A star: a disc that fades from its centre to its rim.
#[derive(Clone, Copy, Debug, PartialEq, Eq, Structural)]
pub struct Star {
    /// Centre, in thousandths of a pixel.
    pub origin: V2,
    /// Radius, in pixels.
    pub radius: i32,
}

impl Star {
    /// The radius in thousandths of a pixel.
    pub open spec fn reach(self) -> int {
        self.radius * UNITS_PER_PIXEL
    }

    /// Column of the first pixel of the bounding square.
    pub open spec fn left(self) -> int {
        pixel_index(self.origin.x - self.reach())
    }

    /// Row of the first pixel of the bounding square.
    pub open spec fn top(self) -> int {
        pixel_index(self.origin.y - self.reach())
    }

    /// Whether pixel `(x, y)` lies in the bounding square, whose side is
    /// twice the radius.
    pub open spec fn covers(self, x: int, y: int) -> bool {
        &&& self.left() <= x < self.left() + 2 * self.radius
        &&& self.top() <= y < self.top() + 2 * self.radius
    }

    /// The paint that erases the star: its bounding square filled with
    /// `background`.
    pub open spec fn erasure(self, background: Color) -> spec_fn(int, int, Color) -> Color {
        rect_paint(self.left(), self.top(), 2 * self.radius, 2 * self.radius, background)
    }

    /// The star after it has fallen for `dt_ms` milliseconds: it moves down
    /// by `SPEED_FACTOR` times its radius pixels per second, and stops at
    /// the end of the coordinate range.
    pub open spec fn drifted(self, dt_ms: int) -> Star {
        Star {
            origin: V2 {
                x: self.origin.x,
                y: clamp_to_i64(self.origin.y + SPEED_FACTOR * self.radius * dt_ms) as i64,
            },
            radius: self.radius,
        }
    }

    /// Whether the star has wholly left a buffer of `height` rows through
    /// its lower edge.
    pub open spec fn is_gone(self, height: int) -> bool {
        self.origin.y - self.reach() >= height * UNITS_PER_PIXEL
    }

    /// The star of the given radius that stands at `x`, just above the
    /// upper edge of the buffer.
    pub open spec fn entering(radius: i32, x: i64) -> Star {
        Star { origin: V2 { x, y: (-(radius * UNITS_PER_PIXEL)) as i64 }, radius }
    }

    /// Whether this star may take the place of `previous` when that one has
    /// left a buffer of `width` columns: its radius lies from
    /// `MIN_STAR_RADIUS` up to, but not including, `MAX_STAR_RADIUS`; it
    /// stands just above the upper edge; and horizontally it lies in the
    /// range of the buffer's width that begins half of the previous radius
    /// left of the buffer.
    pub open spec fn replaces(self, previous: Star, width: int) -> bool {
        &&& MIN_STAR_RADIUS <= self.radius < MAX_STAR_RADIUS
        &&& self.origin.y == -self.reach()
        &&& -halved(previous.radius as int) * UNITS_PER_PIXEL <= self.origin.x
        &&& self.origin.x < (width - halved(previous.radius as int)) * UNITS_PER_PIXEL
    }

    /// Whether this star may come from `previous` by one step of `dt_ms`
    /// milliseconds in a buffer of `width` by `height` pixels: it is
    /// `previous` after its fall, or, where that one has left the buffer, a
    /// star that replaces it.
    pub open spec fn follows(self, previous: Star, dt_ms: int, width: int, height: int) -> bool {
        if previous.drifted(dt_ms).is_gone(height) {
            self.replaces(previous, width)
        } else {
            self == previous.drifted(dt_ms)
        }
    }

    /// Whether a star may enter a buffer of `width` by `height` pixels at the
    /// start: its radius lies from `MIN_STAR_RADIUS` up to, but not
    /// including, `MAX_STAR_RADIUS`, and its centre in the rectangle of the
    /// buffer's size that begins half a radius left of the buffer and a
    /// radius above it.
    pub open spec fn fits_scene(self, width: int, height: int) -> bool {
        &&& MIN_STAR_RADIUS <= self.radius < MAX_STAR_RADIUS
        &&& -halved(self.radius as int) * UNITS_PER_PIXEL <= self.origin.x
        &&& self.origin.x < (width - halved(self.radius as int)) * UNITS_PER_PIXEL
        &&& -self.reach() <= self.origin.y < (height - self.radius) * UNITS_PER_PIXEL
    }

    /// Column of the first pixel of the bounding square.
    pub fn left_pixel(&self) -> (column: i32)
        ensures
            column == self.left(),
    {
        to_pixel(self.origin.x as i128 - (self.radius as i64 * UNITS_PER_PIXEL) as i128)
    }

    /// Row of the first pixel of the bounding square.
    pub fn top_pixel(&self) -> (row: i32)
        ensures
            row == self.top(),
    {
        to_pixel(self.origin.y as i128 - (self.radius as i64 * UNITS_PER_PIXEL) as i128)
    }

    /// The star after it has fallen for `dt_ms` milliseconds.
    pub fn drift(&self, dt_ms: u64) -> (moved: Star)
        ensures
            moved == self.drifted(dt_ms as int),
    {
        let per_ms: i128 = (SPEED_FACTOR * self.radius as i64) as i128;
        assert(-0x2_0000_0000 <= per_ms <= 0x2_0000_0000);
        assert(per_ms * dt_ms == SPEED_FACTOR * self.radius * dt_ms) by (nonlinear_arith)
            requires
                per_ms == SPEED_FACTOR * self.radius,
        ;
        assert(-0x2_0000_0000 * 0x1_0000_0000_0000_0000 <= per_ms * dt_ms <= 0x2_0000_0000
            * 0x1_0000_0000_0000_0000) by (nonlinear_arith)
            requires
                -0x2_0000_0000 <= per_ms <= 0x2_0000_0000,
                0 <= dt_ms <= 0xffff_ffff_ffff_ffff,
        ;
        let y: i128 = self.origin.y as i128 + per_ms * dt_ms as i128;
        let held: i64 = if y < i64::MIN as i128 {
            i64::MIN
        } else if y > i64::MAX as i128 {
            i64::MAX
        } else {
            y as i64
        };
        Star { origin: V2 { x: self.origin.x, y: held }, radius: self.radius }
    }

    /// Whether the star has wholly left a buffer of `height` rows through
    /// its lower edge.
    pub fn has_left(&self, height: i32) -> (gone: bool)
        ensures
            gone == self.is_gone(height as int),
    {
        self.origin.y as i128 - (self.radius as i64 * UNITS_PER_PIXEL) as i128 >= (height as i64
            * UNITS_PER_PIXEL) as i128
    }

    /// The star of the given radius that stands at `x`, just above the
    /// upper edge of the buffer.
    pub fn enter(radius: i32, x: i64) -> (star: Star)
        ensures
            star == Star::entering(radius, x),
            star.origin.y == -star.reach(),
    {
        Star { origin: V2 { x, y: -(radius as i64 * UNITS_PER_PIXEL) }, radius }
    }

    /// Half of the radius, fraction dropped.
    pub fn half_radius(&self) -> (half: i32)
        ensures
            half == halved(self.radius as int),
    {
        self.radius / 2
    }

    /// Distance from the centre of the star to pixel `(x, y)`, rounded down
    /// to a whole thousandth of a pixel. The pixel counts as the point with
    /// the whole coordinates `(x, y)`.
    pub open spec fn distance(self, x: int, y: int) -> int {
        let dx = x * UNITS_PER_PIXEL - self.origin.x;
        let dy = y * UNITS_PER_PIXEL - self.origin.y;
        floor_sqrt(dx * dx + dy * dy)
    }

    /// Opacity of the star at pixel `(x, y)` as a part of `reach()`: it
    /// falls linearly from all of it at the centre to nothing at the rim
    /// and beyond, and counts as all of it from `SOLID_CORE_PERCENT` up.
    pub open spec fn opacity(self, x: int, y: int) -> int {
        let d = self.distance(x, y);
        let linear = if d >= self.reach() {
            0
        } else {
            self.reach() - d
        };
        if 100 * linear >= SOLID_CORE_PERCENT * self.reach() {
            self.reach()
        } else {
            linear
        }
    }

    /// The alpha with which a star of base alpha `base` covers pixel
    /// `(x, y)`: `base` times the opacity, rounded to the nearest whole
    /// number, halves up.
    pub open spec fn alpha(self, base: int, x: int, y: int) -> int {
        (2 * base * self.opacity(x, y) + self.reach()) / (2 * self.reach())
    }
}

/// The alpha of a star lies between nothing and its base alpha.
pub proof fn lemma_alpha_in_range(star: Star, base: int, x: int, y: int)
    requires
        1 <= star.radius,
        0 <= base <= 255,
    ensures
        0 <= star.opacity(x, y) <= star.reach(),
        0 <= star.alpha(base, x, y) <= base,
{
    let reach = star.reach();
    let op = star.opacity(x, y);
    let dx = x * UNITS_PER_PIXEL - star.origin.x;
    let dy = y * UNITS_PER_PIXEL - star.origin.y;
    assert(0 <= dx * dx + dy * dy) by (nonlinear_arith);
    lemma_floor_sqrt(dx * dx + dy * dy);
    assert(0 <= op <= reach);
    let top = 2 * base * op + reach;
    assert(0 <= 2 * base * op <= 2 * base * reach) by (nonlinear_arith)
        requires
            0 <= op <= reach,
            0 <= base,
    ;
    assert(top < (2 * reach) * (base + 1)) by (nonlinear_arith)
        requires
            top == 2 * base * op + reach,
            2 * base * op <= 2 * base * reach,
            0 < reach,
    ;
    lemma_div_pos_is_pos(top, 2 * reach);
    lemma_multiply_divide_lt(top, 2 * reach, base + 1);
}

/// Distance of a difference from zero.
fn spread(d: i128) -> (m: i128)
    requires
        d > i128::MIN,
    ensures
        m == if d >= 0 {
            d as int
        } else {
            -(d as int)
        },
{
    if d >= 0 {
        d
    } else {
        -d
    }
}

/// The alpha with which `star`, of base alpha `base`, covers pixel `(x, y)`.
pub fn star_alpha(star: &Star, base: u8, x: i32, y: i32) -> (alpha: u8)
    requires
        1 <= star.radius,
    ensures
        alpha == star.alpha(base as int, x as int, y as int),
        alpha <= base,
{
    proof {
        lemma_alpha_in_range(*star, base as int, x as int, y as int);
    }
    let reach: i64 = star.radius as i64 * UNITS_PER_PIXEL;
    let dx: i128 = x as i128 * UNITS_PER_PIXEL as i128 - star.origin.x as i128;
    let dy: i128 = y as i128 * UNITS_PER_PIXEL as i128 - star.origin.y as i128;
    let linear: i64 = if spread(dx) >= reach as i128 || spread(dy) >= reach as i128 {
        proof {
            assert(reach * reach <= dx * dx + dy * dy) by (nonlinear_arith)
                requires
                    0 <= reach,
                    dx >= reach || -dx >= reach || dy >= reach || -dy >= reach,
            ;
            lemma_floor_sqrt_at_least(reach as int, dx * dx + dy * dy);
        }
        0
    } else {
        let d: u64 = v2_length(V2 { x: dx as i64, y: dy as i64 });
        if d >= reach as u64 {
            0
        } else {
            reach - d as i64
        }
    };
    let opacity: i64 = if 100 * linear >= SOLID_CORE_PERCENT * reach {
        reach
    } else {
        linear
    };
    assert(opacity == star.opacity(x as int, y as int));
    assert(0 <= 2 * base * opacity <= 510 * reach) by (nonlinear_arith)
        requires
            0 <= opacity <= reach,
            0 <= base <= 255,
    ;
    ((2 * base as i64 * opacity + reach) / (2 * reach)) as u8
}

/// A star that has just entered stays in play in every buffer.
pub proof fn lemma_replacement_in_play(star: Star, previous: Star, width: int, height: int)
    requires
        star.replaces(previous, width),
        1 <= height,
    ensures
        !star.is_gone(height),
{
}

/// After a step no star is beyond the lower edge: one that fell out of the
/// buffer has been replaced by one that enters from above.
pub proof fn lemma_step_keeps_in_play(
    star: Star,
    previous: Star,
    dt_ms: int,
    width: int,
    height: int,
)
    requires
        star.follows(previous, dt_ms, width, height),
        1 <= height,
    ensures
        !star.is_gone(height),
{
}

/// One step of a star for `dt_ms` milliseconds in a buffer of `width` by
/// `height` pixels: the star falls, and where it has left the buffer, a new
/// one of random radius and column enters in its place.
pub fn step_star(star: &Star, dt_ms: u64, width: i32, height: i32, rng: &mut ThreadRng) -> (next:
    Star)
    requires
        1 <= width,
    ensures
        next.follows(*star, dt_ms as int, width as int, height as int),
{
    let moved = star.drift(dt_ms);
    if moved.has_left(height) {
        let half: i64 = star.half_radius() as i64;
        let radius = random_below(rng, MIN_STAR_RADIUS as i64, MAX_STAR_RADIUS as i64);
        let x = random_below(
            rng,
            -half * UNITS_PER_PIXEL,
            (width as i64 - half) * UNITS_PER_PIXEL,
        );
        Star::enter(radius as i32, x)
    } else {
        moved
    }
}

/// Makes `count` stars of random radius and place for a buffer of `width` by
/// `height` pixels.
pub fn scatter_stars(count: usize, width: i32, height: i32, rng: &mut ThreadRng) -> (stars: Vec<
    Star,
>)
    requires
        1 <= width,
        1 <= height,
    ensures
        stars@.len() == count,
        forall|i: int|
            0 <= i < count ==> (#[trigger] stars@[i]).fits_scene(width as int, height as int),
{
    let mut stars: Vec<Star> = Vec::new();
    let mut i: usize = 0;
    while i < count
        invariant
            1 <= width,
            1 <= height,
            i <= count,
            stars@.len() == i,
            forall|j: int|
                0 <= j < i ==> (#[trigger] stars@[j]).fits_scene(width as int, height as int),
        decreases count - i,
    {
        let radius = random_below(rng, MIN_STAR_RADIUS as i64, MAX_STAR_RADIUS as i64);
        let half: i64 = radius / 2;
        let x = random_below(
            rng,
            -half * UNITS_PER_PIXEL,
            (width as i64 - half) * UNITS_PER_PIXEL,
        );
        let y = random_below(
            rng,
            -radius * UNITS_PER_PIXEL,
            (height as i64 - radius) * UNITS_PER_PIXEL,
        );
        let star = Star { origin: V2 { x, y }, radius: radius as i32 };
        stars.push(star);
        i = i + 1;
    }
    stars
}

/// The raster after the bounding squares of `stars` were filled with
/// `background`, one star after the other.
pub open spec fn erased(r: Raster, stars: Seq<Star>, background: Color) -> Raster
    decreases stars.len(),
{
    if stars.len() == 0 {
        r
    } else {
        erased(r, stars.drop_last(), background).repaint(stars.last().erasure(background))
    }
}

/// The raster after `stars` were drawn in `color`, one star after the other.
pub open spec fn drawn(r: Raster, stars: Seq<Star>, color: Color) -> Raster
    decreases stars.len(),
{
    if stars.len() == 0 {
        r
    } else {
        drawn(r, stars.drop_last(), color).repaint(star_paint(stars.last(), color))
    }
}

/// Advances the scene by one frame of `dt_ms` milliseconds and renders it.
///
/// First every star is erased where it was drawn last, by filling its
/// bounding square with the background colour, and takes its step. Then
/// every star is drawn at its new place. Erasing all before drawing any
/// keeps a star from wiping out a neighbour that overlaps it.
pub fn update_and_render(
    buffer: &mut Win32OffscreenBuffer,
    dt_ms: u64,
    stars: &mut Vec<Star>,
    palette: &Palette,
    rng: &mut ThreadRng,
)
    requires
        old(buffer).wf(),
    ensures
        final(buffer).wf(),
        final(stars)@.len() == old(stars)@.len(),
        forall|i: int|
            0 <= i < final(stars)@.len() ==> (#[trigger] final(stars)@[i]).follows(
                old(stars)@[i],
                dt_ms as int,
                old(buffer)@.width,
                old(buffer)@.height,
            ),
        forall|i: int|
            0 <= i < final(stars)@.len() ==> !(#[trigger] final(stars)@[i]).is_gone(
                old(buffer)@.height,
            ),
        final(buffer)@ == drawn(
            erased(old(buffer)@, old(stars)@, palette.background),
            final(stars)@,
            palette.star,
        ),
{
    let ghost before = buffer@;
    let ghost previous = stars@;
    let width = buffer.width();
    let height = buffer.height();
    let count = stars.len();
    let mut i: usize = 0;
    while i < count
        invariant
            buffer.wf(),
            before.wf(),
            i <= count == stars@.len() == previous.len(),
            width == before.width,
            height == before.height,
            buffer@.same_shape(before),
            buffer@ == erased(before, previous.take(i as int), palette.background),
            forall|j: int|
                0 <= j < i ==> (#[trigger] stars@[j]).follows(
                    previous[j],
                    dt_ms as int,
                    width as int,
                    height as int,
                ),
            forall|j: int| i <= j < count ==> #[trigger] stars@[j] == previous[j],
        decreases count - i,
    {
        let star = stars[i];
        let side: i64 = 2 * star.radius as i64;
        proof {
            crate::raster::lemma_repaint(buffer@, star.erasure(palette.background));
            assert(previous.take(i + 1).drop_last() =~= previous.take(i as int));
            assert(previous.take(i + 1).last() == star);
        }
        fill_pixels(star.left_pixel(), star.top_pixel(), side, side, &palette.background, buffer);
        let next = step_star(&star, dt_ms, width, height, rng);
        stars.set(i, next);
        i = i + 1;
    }
    assert(previous.take(count as int) =~= previous);
    let ghost cleared = buffer@;
    let mut k: usize = 0;
    while k < count
        invariant
            buffer.wf(),
            k <= count == stars@.len(),
            buffer@ == drawn(cleared, stars@.take(k as int), palette.star),
        decreases count - k,
    {
        let star = stars[k];
        proof {
            assert(stars@.take(k + 1).drop_last() =~= stars@.take(k as int));
            assert(stars@.take(k + 1).last() == star);
        }
        draw_star(&star, &palette.star, buffer);
        k = k + 1;
    }
    proof {
        assert(stars@.take(count as int) =~= stars@);
        assert forall|j: int| 0 <= j < stars@.len() implies !(#[trigger] stars@[j]).is_gone(
            before.height,
        ) by {
            lemma_step_keeps_in_play(
                stars@[j],
                previous[j],
                dt_ms as int,
                before.width,
                before.height,
            );
        }
    }
}

} // verus!
