use vstd::prelude::*;
use crate::arith::product;
use crate::color::Color;
use crate::raster::{Raster, lemma_pixel_byte, lemma_with_pixel, BYTES_PER_PIXEL, MAX_BUFFER_BYTES};

verus! {

/// An owned region of packed pixels that every drawing primitive targets.
///
/// Pixels are 32 bits wide and lie in memory as blue, green, red, alpha. A
/// row takes `pitch` bytes, which may be more than its pixels need. The
/// geometry never changes after creation.
pub struct Win32OffscreenBuffer {
    bits: Vec<u8>,
    width: i32,
    height: i32,
    pitch: i32,
}

impl View for Win32OffscreenBuffer {
    type V = Raster;

    closed spec fn view(&self) -> Raster {
        Raster {
            width: self.width as int,
            height: self.height as int,
            pitch: self.pitch as int,
            bits: self.bits@,
        }
    }
}

impl Win32OffscreenBuffer {
    /// The invariant of the type: every constructor establishes it and every
    /// operation keeps it.
    pub open spec fn wf(&self) -> bool {
        self@.wf()
    }

    /// A buffer of `width` by `height` pixels without row padding, all bytes
    /// zero. There is none if a dimension is not positive or the pixels
    /// would take more than `MAX_BUFFER_BYTES` bytes.
    pub fn new(width: i32, height: i32) -> (made: Option<Win32OffscreenBuffer>)
        ensures
            made is Some <==> 1 <= width && 1 <= height && BYTES_PER_PIXEL * width * height
                <= MAX_BUFFER_BYTES,
            made matches Some(buffer) ==> buffer.wf() && buffer@ == Raster::blank(
                width as int,
                height as int,
                BYTES_PER_PIXEL * width,
            ),
    {
        if width < 1 || height < 1 {
            return None;
        }
        if product(width, height) > (MAX_BUFFER_BYTES / BYTES_PER_PIXEL) as i64 {
            assert(BYTES_PER_PIXEL * width * height > MAX_BUFFER_BYTES) by (nonlinear_arith)
                requires
                    width * height > MAX_BUFFER_BYTES / BYTES_PER_PIXEL,
            ;
            return None;
        }
        assert(BYTES_PER_PIXEL * width * height <= MAX_BUFFER_BYTES) by (nonlinear_arith)
            requires
                width * height <= MAX_BUFFER_BYTES / BYTES_PER_PIXEL,
        ;
        assert(BYTES_PER_PIXEL * width <= BYTES_PER_PIXEL * width * height) by (nonlinear_arith)
            requires
                1 <= width,
                1 <= height,
        ;
        Self::with_pitch(width, height, BYTES_PER_PIXEL * width)
    }

    /// A buffer of `width` by `height` pixels whose rows take `pitch` bytes,
    /// all bytes zero. There is none if a dimension is not positive, a row
    /// does not hold its pixels, or the rows would take more than
    /// `MAX_BUFFER_BYTES` bytes.
    pub fn with_pitch(width: i32, height: i32, pitch: i32) -> (made: Option<Win32OffscreenBuffer>)
        ensures
            made is Some <==> Raster::blank(width as int, height as int, pitch as int).wf(),
            made matches Some(buffer) ==> buffer.wf() && buffer@ == Raster::blank(
                width as int,
                height as int,
                pitch as int,
            ),
    {
        if width < 1 || height < 1 || (pitch as i64) < product(BYTES_PER_PIXEL, width) {
            return None;
        }
        let span: i64 = product(pitch, height);
        if span > MAX_BUFFER_BYTES as i64 {
            return None;
        }
        let len: usize = span as usize;
        let bits: Vec<u8> = vec![0u8; len];
        let buffer = Win32OffscreenBuffer { bits, width, height, pitch };
        assert(buffer@.bits =~= Raster::blank(width as int, height as int, pitch as int).bits);
        Some(buffer)
    }

    /// A buffer over the given bytes. There is none if the geometry and the
    /// bytes do not make a well-formed raster.
    pub fn from_bits(bits: Vec<u8>, width: i32, height: i32, pitch: i32) -> (made: Option<
        Win32OffscreenBuffer,
    >)
        ensures
            made is Some <==> (Raster {
                width: width as int,
                height: height as int,
                pitch: pitch as int,
                bits: bits@,
            }).wf(),
            made matches Some(buffer) ==> buffer.wf() && buffer@ == (Raster {
                width: width as int,
                height: height as int,
                pitch: pitch as int,
                bits: bits@,
            }),
    {
        if width < 1 || height < 1 || (pitch as i64) < product(BYTES_PER_PIXEL, width) {
            return None;
        }
        let span: i64 = product(pitch, height);
        if span > MAX_BUFFER_BYTES as i64 || span as usize > bits.len() {
            return None;
        }
        Some(Win32OffscreenBuffer { bits, width, height, pitch })
    }

    /// Width in pixels.
    pub fn width(&self) -> (w: i32)
        ensures
            w == self@.width,
    {
        self.width
    }

    /// Height in pixels.
    pub fn height(&self) -> (h: i32)
        ensures
            h == self@.height,
    {
        self.height
    }

    /// Bytes per row.
    pub fn pitch(&self) -> (p: i32)
        ensures
            p == self@.pitch,
    {
        self.pitch
    }

    /// The bytes of the buffer, rows from top to bottom.
    pub fn bits(&self) -> (bytes: &Vec<u8>)
        ensures
            bytes@ == self@.bits,
    {
        &self.bits
    }

    /// Whether `(x, y)` names a pixel of the buffer.
    pub fn contains(&self, x: i32, y: i32) -> (inside: bool)
        ensures
            inside == self@.contains(x as int, y as int),
    {
        0 <= x && x < self.width && 0 <= y && y < self.height
    }

    /// Index of the first byte of a pixel of the buffer.
    fn offset(&self, x: i32, y: i32) -> (at: usize)
        requires
            self.wf(),
            self@.contains(x as int, y as int),
        ensures
            at == self@.offset(x as int, y as int),
            at + 3 < self.bits.len(),
    {
        proof {
            lemma_pixel_byte(self@, x as int, y as int, 0);
            lemma_pixel_byte(self@, x as int, y as int, 3);
            assert(0 <= y * self.pitch) by (nonlinear_arith)
                requires
                    0 <= y,
                    0 <= self.pitch,
            ;
        }
        let row: usize = product(y, self.pitch) as usize;
        row + (BYTES_PER_PIXEL as usize) * (x as usize)
    }

    /// The colour of a pixel of the buffer.
    pub fn read_pixel(&self, x: i32, y: i32) -> (c: Color)
        requires
            self.wf(),
            self@.contains(x as int, y as int),
        ensures
            c == self@.pixel(x as int, y as int),
    {
        let at = self.offset(x, y);
        Color { b: self.bits[at], g: self.bits[at + 1], r: self.bits[at + 2], a: self.bits[at + 3] }
    }

    /// Stores a colour at a pixel of the buffer.
    pub fn write_pixel(&mut self, x: i32, y: i32, c: Color)
        requires
            old(self).wf(),
            old(self)@.contains(x as int, y as int),
        ensures
            final(self).wf(),
            final(self)@ == old(self)@.with_pixel(x as int, y as int, c),
    {
        let at = self.offset(x, y);
        proof {
            lemma_with_pixel(self@, x as int, y as int, c);
        }
        self.bits.set(at, c.b);
        self.bits.set(at + 1, c.g);
        self.bits.set(at + 2, c.r);
        self.bits.set(at + 3, c.a);
    }

    /// The colour at `(x, y)`, if the buffer has such a pixel.
    pub fn get_pixel(&self, x: i32, y: i32) -> (found: Option<Color>)
        requires
            self.wf(),
        ensures
            found == if self@.contains(x as int, y as int) {
                Some(self@.pixel(x as int, y as int))
            } else {
                None
            },
    {
        if self.contains(x, y) {
            Some(self.read_pixel(x, y))
        } else {
            None
        }
    }

    /// Stores a colour at `(x, y)` if the buffer has such a pixel, and says
    /// whether it has. Otherwise the buffer stays as it is.
    pub fn set_pixel(&mut self, x: i32, y: i32, c: Color) -> (stored: bool)
        requires
            old(self).wf(),
        ensures
            final(self).wf(),
            stored == old(self)@.contains(x as int, y as int),
            final(self)@ == if stored {
                old(self)@.with_pixel(x as int, y as int, c)
            } else {
                old(self)@
            },
    {
        if self.contains(x, y) {
            self.write_pixel(x, y, c);
            true
        } else {
            false
        }
    }
}

} // verus!
