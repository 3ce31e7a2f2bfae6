use vstd::prelude::*;
use vstd::arithmetic::div_mod::{lemma_fundamental_div_mod, lemma_fundamental_div_mod_converse};
use vstd::arithmetic::mul::{lemma_mul_inequality, lemma_mul_is_commutative};
use crate::color::Color;

verus! {

/// Number of bytes that one pixel occupies.
pub const BYTES_PER_PIXEL: i32 = 4;

/// Largest number of bytes that the rows of a buffer may span.
pub const MAX_BUFFER_BYTES: i32 = 0x7fff_ffff;

/// The mathematical content of a pixel buffer: its geometry and its bytes.
pub struct Raster {
    pub width: int,
    pub height: int,
    pub pitch: int,
    pub bits: Seq<u8>,
}

impl Raster {
    /// A raster has at least one pixel, rows that do not overlap, and enough
    /// bytes for all its rows.
    pub open spec fn wf(self) -> bool {
        &&& 1 <= self.width
        &&& 1 <= self.height
        &&& BYTES_PER_PIXEL * self.width <= self.pitch
        &&& self.pitch * self.height <= self.bits.len()
        &&& self.pitch * self.height <= MAX_BUFFER_BYTES
    }

    /// Whether `(x, y)` names a pixel of the raster.
    pub open spec fn contains(self, x: int, y: int) -> bool {
        0 <= x < self.width && 0 <= y < self.height
    }

    /// Index of the first byte of pixel `(x, y)`.
    pub open spec fn offset(self, x: int, y: int) -> int {
        y * self.pitch + BYTES_PER_PIXEL * x
    }

    /// The colour stored at pixel `(x, y)`: its four bytes hold blue, green,
    /// red and alpha.
    pub open spec fn pixel(self, x: int, y: int) -> Color {
        let at = self.offset(x, y);
        Color { b: self.bits[at], g: self.bits[at + 1], r: self.bits[at + 2], a: self.bits[at + 3] }
    }

    /// Column of the pixel that byte `i` would belong to.
    pub open spec fn column_of(self, i: int) -> int {
        (i % self.pitch) / (BYTES_PER_PIXEL as int)
    }

    /// Row of the pixel that byte `i` would belong to.
    pub open spec fn row_of(self, i: int) -> int {
        i / self.pitch
    }

    /// Position of byte `i` within its pixel.
    pub open spec fn channel_of(self, i: int) -> int {
        (i % self.pitch) % (BYTES_PER_PIXEL as int)
    }

    /// Whether byte `i` belongs to some pixel, and not to row padding or to
    /// the tail behind the last row.
    pub open spec fn is_pixel_byte(self, i: int) -> bool {
        self.contains(self.column_of(i), self.row_of(i))
    }

    /// The raster with pixel `(x, y)` set to `c`.
    pub open spec fn with_pixel(self, x: int, y: int, c: Color) -> Raster {
        let at = self.offset(x, y);
        Raster {
            bits: self.bits.update(at, c.b).update(at + 1, c.g).update(at + 2, c.r).update(
                at + 3,
                c.a,
            ),
            ..self
        }
    }

    /// Two rasters of one geometry and one length.
    pub open spec fn same_shape(self, other: Raster) -> bool {
        &&& self.width == other.width
        &&& self.height == other.height
        &&& self.pitch == other.pitch
        &&& self.bits.len() == other.bits.len()
    }

    /// Byte `i` after every pixel `(x, y)` of colour `c` was replaced by
    /// `paint(x, y, c)`.
    pub open spec fn repainted_byte(self, paint: spec_fn(int, int, Color) -> Color, i: int) -> u8 {
        let x = self.column_of(i);
        let y = self.row_of(i);
        if self.contains(x, y) {
            paint(x, y, self.pixel(x, y)).channel(self.channel_of(i))
        } else {
            self.bits[i]
        }
    }

    /// The raster in which every pixel `(x, y)` of colour `c` was replaced
    /// by `paint(x, y, c)`. Bytes outside the pixels keep their value.
    pub open spec fn repaint(self, paint: spec_fn(int, int, Color) -> Color) -> Raster {
        Raster {
            bits: Seq::new(self.bits.len(), |i: int| self.repainted_byte(paint, i)),
            ..self
        }
    }

    /// A raster of the given geometry whose bytes are all zero.
    pub open spec fn blank(width: int, height: int, pitch: int) -> Raster {
        Raster { width, height, pitch, bits: Seq::new((pitch * height) as nat, |i: int| 0u8) }
    }

    /// Whether a row-by-row pass over the pixels has gone past `(x, y)` when
    /// it stands at column `col` of row `row`.
    pub open spec fn passed(x: int, y: int, row: int, col: int) -> bool {
        y < row || (y == row && x < col)
    }

    /// `now` is this raster after a row-by-row pass has repainted every
    /// pixel before column `col` of row `row`.
    pub open spec fn painted_before(
        self,
        now: Raster,
        paint: spec_fn(int, int, Color) -> Color,
        row: int,
        col: int,
    ) -> bool {
        &&& now.same_shape(self)
        &&& self.same_padding(now)
        &&& forall|x: int, y: int|
            self.contains(x, y) ==> #[trigger] now.pixel(x, y) == if Self::passed(x, y, row, col) {
                paint(x, y, self.pixel(x, y))
            } else {
                self.pixel(x, y)
            }
    }

    /// The rasters agree on every byte that belongs to no pixel.
    pub open spec fn same_padding(self, other: Raster) -> bool {
        forall|i: int|
            0 <= i < self.bits.len() && !self.is_pixel_byte(i) ==> #[trigger] other.bits[i]
                == self.bits[i]
    }
}

/// Byte `k` of pixel `(x, y)` lies inside the rows, and decodes back to
/// `(x, y)` and `k`.
pub proof fn lemma_pixel_byte(r: Raster, x: int, y: int, k: int)
    requires
        r.wf(),
        r.contains(x, y),
        0 <= k < 4,
    ensures
        0 <= r.offset(x, y) + k < r.pitch * r.height,
        r.row_of(r.offset(x, y) + k) == y,
        r.column_of(r.offset(x, y) + k) == x,
        r.channel_of(r.offset(x, y) + k) == k,
        r.is_pixel_byte(r.offset(x, y) + k),
{
    let i = r.offset(x, y) + k;
    let within = 4 * x + k;
    assert(0 <= y * r.pitch) by {
        lemma_mul_inequality(0, y, r.pitch);
    }
    assert((y + 1) * r.pitch <= r.height * r.pitch) by {
        lemma_mul_inequality(y + 1, r.height, r.pitch);
    }
    assert((y + 1) * r.pitch == y * r.pitch + r.pitch) by (nonlinear_arith);
    lemma_mul_is_commutative(r.height, r.pitch);
    lemma_fundamental_div_mod_converse(i, r.pitch, y, within);
    lemma_fundamental_div_mod_converse(within, 4, x, k);
}

/// A byte that belongs to a pixel is one of the four bytes of that pixel.
pub proof fn lemma_byte_pixel(r: Raster, i: int)
    requires
        r.wf(),
        0 <= i,
        r.is_pixel_byte(i),
    ensures
        0 <= r.channel_of(i) < 4,
        i == r.offset(r.column_of(i), r.row_of(i)) + r.channel_of(i),
{
    lemma_fundamental_div_mod(i, r.pitch);
    lemma_fundamental_div_mod(i % r.pitch, 4);
    lemma_mul_is_commutative(r.pitch, i / r.pitch);
}

/// Setting one pixel changes that pixel and nothing else.
pub proof fn lemma_with_pixel(r: Raster, x: int, y: int, c: Color)
    requires
        r.wf(),
        r.contains(x, y),
    ensures
        r.with_pixel(x, y, c).wf(),
        r.with_pixel(x, y, c).same_shape(r),
        r.with_pixel(x, y, c).pixel(x, y) == c,
        forall|x2: int, y2: int|
            r.contains(x2, y2) && (x2 != x || y2 != y) ==> #[trigger] r.with_pixel(x, y, c).pixel(
                x2,
                y2,
            ) == r.pixel(x2, y2),
        r.same_padding(r.with_pixel(x, y, c)),
{
    let w = r.with_pixel(x, y, c);
    let at = r.offset(x, y);
    lemma_pixel_byte(r, x, y, 0);
    lemma_pixel_byte(r, x, y, 1);
    lemma_pixel_byte(r, x, y, 2);
    lemma_pixel_byte(r, x, y, 3);
    assert forall|x2: int, y2: int| r.contains(x2, y2) && (x2 != x || y2 != y) implies #[trigger] w.pixel(
        x2,
        y2,
    ) == r.pixel(x2, y2) by {
        let at2 = r.offset(x2, y2);
        lemma_pixel_byte(r, x2, y2, 0);
        lemma_pixel_byte(r, x2, y2, 1);
        lemma_pixel_byte(r, x2, y2, 2);
        lemma_pixel_byte(r, x2, y2, 3);
        assert(at2 + 3 < at || at + 3 < at2) by {
            if at <= at2 + 3 && at2 <= at + 3 {
                let d = at2 - at;
                // the two pixels share a byte, so they decode alike
                if d >= 0 {
                    assert(at2 == at + d);
                    assert(r.row_of(at + d) == y && r.column_of(at + d) == x);
                } else {
                    assert(at == at2 + (-d));
                    assert(r.row_of(at2 + (-d)) == y2 && r.column_of(at2 + (-d)) == x2);
                }
            }
        }
    }
    assert forall|i: int| 0 <= i < r.bits.len() && !r.is_pixel_byte(i) implies #[trigger] w.bits[i]
        == r.bits[i] by {
        assert(i != at && i != at + 1 && i != at + 2 && i != at + 3);
    }
}

/// What repainting does, pixel by pixel.
pub proof fn lemma_repaint(r: Raster, paint: spec_fn(int, int, Color) -> Color)
    requires
        r.wf(),
    ensures
        r.repaint(paint).wf(),
        r.repaint(paint).same_shape(r),
        forall|x: int, y: int|
            r.contains(x, y) ==> #[trigger] r.repaint(paint).pixel(x, y) == paint(
                x,
                y,
                r.pixel(x, y),
            ),
        r.same_padding(r.repaint(paint)),
{
    let p = r.repaint(paint);
    assert forall|x: int, y: int| r.contains(x, y) implies #[trigger] p.pixel(x, y) == paint(
        x,
        y,
        r.pixel(x, y),
    ) by {
        lemma_pixel_byte(r, x, y, 0);
        lemma_pixel_byte(r, x, y, 1);
        lemma_pixel_byte(r, x, y, 2);
        lemma_pixel_byte(r, x, y, 3);
    }
}

/// A raster that relates to `r` pixel by pixel as `paint` says, and agrees
/// with it elsewhere, is `r` repainted.
pub proof fn lemma_repaint_unique(r: Raster, p: Raster, paint: spec_fn(int, int, Color) -> Color)
    requires
        r.wf(),
        p.same_shape(r),
        forall|x: int, y: int|
            r.contains(x, y) ==> #[trigger] p.pixel(x, y) == paint(x, y, r.pixel(x, y)),
        r.same_padding(p),
    ensures
        p == r.repaint(paint),
{
    let q = r.repaint(paint);
    assert forall|i: int| 0 <= i < p.bits.len() implies p.bits[i] == q.bits[i] by {
        if r.is_pixel_byte(i) {
            lemma_byte_pixel(r, i);
            let x = r.column_of(i);
            let y = r.row_of(i);
            assert(p.pixel(x, y) == paint(x, y, r.pixel(x, y)));
        }
    }
    assert(p.bits =~= q.bits);
}

/// Repainting the pixel at which a pass stands moves the pass one column on.
pub proof fn lemma_paint_step(
    r: Raster,
    now: Raster,
    paint: spec_fn(int, int, Color) -> Color,
    row: int,
    col: int,
)
    requires
        r.wf(),
        r.painted_before(now, paint, row, col),
        r.contains(col, row),
    ensures
        r.painted_before(
            now.with_pixel(col, row, paint(col, row, r.pixel(col, row))),
            paint,
            row,
            col + 1,
        ),
        now.pixel(col, row) == r.pixel(col, row),
{
    let c = paint(col, row, r.pixel(col, row));
    let next = now.with_pixel(col, row, c);
    lemma_with_pixel(now, col, row, c);
    assert forall|i: int| 0 <= i < r.bits.len() && !r.is_pixel_byte(i) implies #[trigger] next.bits[i]
        == r.bits[i] by {
        assert(now.bits[i] == r.bits[i]);
    }
    assert forall|x: int, y: int| r.contains(x, y) implies #[trigger] next.pixel(x, y) == if Raster::passed(
        x,
        y,
        row,
        col + 1,
    ) {
        paint(x, y, r.pixel(x, y))
    } else {
        r.pixel(x, y)
    } by {
        if x != col || y != row {
            assert(next.pixel(x, y) == now.pixel(x, y));
        }
    }
}

/// A pass may jump ahead over pixels that the paint leaves as they are.
pub proof fn lemma_paint_skip(
    r: Raster,
    now: Raster,
    paint: spec_fn(int, int, Color) -> Color,
    row: int,
    col: int,
    to_row: int,
    to_col: int,
)
    requires
        r.painted_before(now, paint, row, col),
        forall|x: int, y: int|
            r.contains(x, y) && !Raster::passed(x, y, row, col) && Raster::passed(
                x,
                y,
                to_row,
                to_col,
            ) ==> #[trigger] paint(x, y, r.pixel(x, y)) == r.pixel(x, y),
        forall|x: int, y: int|
            r.contains(x, y) && Raster::passed(x, y, row, col) ==> Raster::passed(
                x,
                y,
                to_row,
                to_col,
            ),
    ensures
        r.painted_before(now, paint, to_row, to_col),
{
    assert forall|x: int, y: int| r.contains(x, y) implies #[trigger] now.pixel(x, y) == if Raster::passed(
        x,
        y,
        to_row,
        to_col,
    ) {
        paint(x, y, r.pixel(x, y))
    } else {
        r.pixel(x, y)
    } by {
        if !Raster::passed(x, y, row, col) && Raster::passed(x, y, to_row, to_col) {
            assert(paint(x, y, r.pixel(x, y)) == r.pixel(x, y));
        }
    }
}

/// A pass that has gone past the last row has repainted the raster.
pub proof fn lemma_paint_done(r: Raster, now: Raster, paint: spec_fn(int, int, Color) -> Color)
    requires
        r.wf(),
        r.painted_before(now, paint, r.height, 0),
    ensures
        now == r.repaint(paint),
{
    lemma_repaint_unique(r, now, paint);
}

/// What a pixel becomes under a paint does not depend on the raster around
/// it: two rasters that hold the same colour at `(x, y)` hold the same
/// colour there after repainting, whatever their sizes.
pub proof fn lemma_repaint_regardless_of_bounds(
    a: Raster,
    b: Raster,
    paint: spec_fn(int, int, Color) -> Color,
    x: int,
    y: int,
)
    requires
        a.wf(),
        b.wf(),
        a.contains(x, y),
        b.contains(x, y),
        a.pixel(x, y) == b.pixel(x, y),
    ensures
        a.repaint(paint).pixel(x, y) == b.repaint(paint).pixel(x, y),
{
    lemma_repaint(a, paint);
    lemma_repaint(b, paint);
}

} // verus!
