use vstd::prelude::*;
use crate::arith::product;
use crate::color::Color;
use crate::raster::BYTES_PER_PIXEL;

verus! {

/// Number of bytes that the part of the header takes that the loader reads.
pub const HEADER_LEN: usize = 26;

/// Where the header holds the index of the first byte of pixel data.
pub const DATA_OFFSET_AT: usize = 10;

/// Where the header holds the width in pixels.
pub const WIDTH_AT: usize = 18;

/// Where the header holds the height in pixels.
pub const HEIGHT_AT: usize = 22;

/// The unsigned number that four bytes hold, lowest byte first.
pub open spec fn le_u32(bytes: Seq<u8>, at: int) -> int {
    bytes[at] + 0x100 * bytes[at + 1] + 0x1_0000 * bytes[at + 2] + 0x100_0000 * bytes[at + 3]
}

/// The signed number that four bytes hold, lowest byte first, in two's
/// complement.
pub open spec fn le_i32(bytes: Seq<u8>, at: int) -> int {
    if le_u32(bytes, at) >= 0x8000_0000 {
        le_u32(bytes, at) - 0x1_0000_0000
    } else {
        le_u32(bytes, at)
    }
}

/// Why a byte array is no bitmap.
#[derive(Clone, Copy, Debug, PartialEq, Eq, Structural)]
pub enum BitmapError {
    /// The bytes end before the header does.
    TruncatedHeader,
    /// The header gives a negative width, height or data offset.
    NegativeField,
    /// The bytes end before the pixel data of the declared size does.
    InsufficientData,
}

/// The order in which a bitmap file holds its rows. The header is not asked
/// for it: whoever loads the file says which one holds.
#[derive(Clone, Copy, Debug, PartialEq, Eq, Structural)]
pub enum RowOrder {
    /// The first row of the file is the top row of the picture.
    TopDown,
    /// The first row of the file is the bottom row of the picture.
    BottomUp,
}

/// The mathematical content of a loaded bitmap: its geometry and the bytes
/// of the file, in which rows of packed 32-bit pixels begin at
/// `data_offset`.
pub struct Texture {
    pub width: int,
    pub height: int,
    pub pitch: int,
    pub data_offset: int,
    pub rows: RowOrder,
    pub bits: Seq<u8>,
}

impl Texture {
    /// Rows are packed, and all pixel data lies inside the bytes.
    pub open spec fn wf(self) -> bool {
        &&& 0 <= self.width <= i32::MAX
        &&& 0 <= self.height <= i32::MAX
        &&& 0 <= self.data_offset <= i32::MAX
        &&& self.pitch == BYTES_PER_PIXEL * self.width
        &&& self.data_offset + self.pitch * self.height <= self.bits.len()
    }

    /// Whether `(x, y)` names a texel of the bitmap.
    pub open spec fn contains(self, x: int, y: int) -> bool {
        0 <= x < self.width && 0 <= y < self.height
    }

    /// Which row of the file holds row `y` of the picture, counted from
    /// the top.
    pub open spec fn stored_row(self, y: int) -> int {
        match self.rows {
            RowOrder::TopDown => y,
            RowOrder::BottomUp => self.height - 1 - y,
        }
    }

    /// Index of the first byte of texel `(x, y)`.
    pub open spec fn offset(self, x: int, y: int) -> int {
        self.data_offset + self.stored_row(y) * self.pitch + BYTES_PER_PIXEL * x
    }

    /// Whether `(x, y)` names a texel whose four bytes lie in the pixel data
    /// and in the bytes of the file.
    pub open spec fn holds_texel(self, x: int, y: int) -> bool {
        &&& self.contains(x, y)
        &&& self.data_offset <= self.offset(x, y)
        &&& self.offset(x, y) + 3 < self.data_offset + self.pitch * self.height
        &&& self.offset(x, y) + 3 < self.bits.len()
    }

    /// The colour stored at texel `(x, y)`.
    pub open spec fn texel(self, x: int, y: int) -> Color {
        let at = self.offset(x, y);
        Color { b: self.bits[at], g: self.bits[at + 1], r: self.bits[at + 2], a: self.bits[at + 3] }
    }

    /// The bitmap that the header of `bytes` declares, with its rows in the
    /// given order.
    pub open spec fn declared(bytes: Seq<u8>, rows: RowOrder) -> Texture {
        Texture {
            width: le_i32(bytes, WIDTH_AT as int),
            height: le_i32(bytes, HEIGHT_AT as int),
            pitch: BYTES_PER_PIXEL * le_i32(bytes, WIDTH_AT as int),
            data_offset: le_i32(bytes, DATA_OFFSET_AT as int),
            rows,
            bits: bytes,
        }
    }

    /// Why `bytes` are no bitmap, if they are none.
    pub open spec fn defect(bytes: Seq<u8>) -> Option<BitmapError> {
        let declared = Self::declared(bytes, RowOrder::TopDown);
        if bytes.len() < HEADER_LEN {
            Some(BitmapError::TruncatedHeader)
        } else if declared.data_offset < 0 || declared.width < 0 || declared.height < 0 {
            Some(BitmapError::NegativeField)
        } else if declared.data_offset + declared.pitch * declared.height > bytes.len() {
            Some(BitmapError::InsufficientData)
        } else {
            None
        }
    }
}

/// The four bytes of every texel lie inside the bytes of the bitmap.
pub proof fn lemma_texel_bytes(t: Texture, x: int, y: int)
    requires
        t.wf(),
        t.contains(x, y),
    ensures
        t.holds_texel(x, y),
{
    let row = t.stored_row(y);
    assert(0 <= row * t.pitch && (row + 1) * t.pitch <= t.pitch * t.height && (row + 1) * t.pitch
        == row * t.pitch + t.pitch) by (nonlinear_arith)
        requires
            0 <= row < t.height,
            0 <= t.pitch,
    ;
}

/// A bitmap of packed 32-bit pixels, blue first, as loaded from a file.
/// It does not change after loading.
pub struct LoadedBitmap {
    bits: Vec<u8>,
    height: i32,
    width: i32,
    pitch: i64,
    data_offset: i32,
    rows: RowOrder,
}

impl View for LoadedBitmap {
    type V = Texture;

    closed spec fn view(&self) -> Texture {
        Texture {
            width: self.width as int,
            height: self.height as int,
            pitch: self.pitch as int,
            data_offset: self.data_offset as int,
            rows: self.rows,
            bits: self.bits@,
        }
    }
}

/// The signed number that the four bytes from `at` on hold, lowest byte
/// first.
pub fn read_le_i32(bytes: &Vec<u8>, at: usize) -> (value: i32)
    requires
        at + 3 < bytes.len(),
    ensures
        value == le_i32(bytes@, at as int),
{
    let unsigned: i64 = bytes[at] as i64 + 0x100 * (bytes[at + 1] as i64) + 0x1_0000 * (bytes[at
        + 2] as i64) + 0x100_0000 * (bytes[at + 3] as i64);
    if unsigned >= 0x8000_0000 {
        (unsigned - 0x1_0000_0000) as i32
    } else {
        unsigned as i32
    }
}

impl LoadedBitmap {
    /// The invariant of the type, which loading establishes.
    pub open spec fn wf(&self) -> bool {
        self@.wf()
    }

    /// Width in texels.
    pub fn width(&self) -> (w: i32)
        ensures
            w == self@.width,
    {
        self.width
    }

    /// Height in texels.
    pub fn height(&self) -> (h: i32)
        ensures
            h == self@.height,
    {
        self.height
    }

    /// Bytes per row.
    pub fn pitch(&self) -> (p: i64)
        ensures
            p == self@.pitch,
    {
        self.pitch
    }

    /// Index of the first byte of pixel data.
    pub fn data_offset(&self) -> (at: i32)
        ensures
            at == self@.data_offset,
    {
        self.data_offset
    }

    /// The order in which the file holds its rows.
    pub fn row_order(&self) -> (rows: RowOrder)
        ensures
            rows == self@.rows,
    {
        self.rows
    }

    /// The bytes of the file.
    pub fn bits(&self) -> (bytes: &Vec<u8>)
        ensures
            bytes@ == self@.bits,
    {
        &self.bits
    }

    /// The colour of a texel of the bitmap.
    pub fn read_texel(&self, x: i32, y: i32) -> (c: Color)
        requires
            self.wf(),
            self@.contains(x as int, y as int),
        ensures
            c == self@.texel(x as int, y as int),
    {
        let stored: i32 = match self.rows {
            RowOrder::TopDown => y,
            RowOrder::BottomUp => self.height - 1 - y,
        };
        proof {
            lemma_texel_bytes(self@, x as int, y as int);
            assert(0 <= stored * self.pitch <= self.pitch * self.height && self.pitch <= self.pitch
                * self.height) by (nonlinear_arith)
                requires
                    0 <= stored < self.height,
                    0 <= self.pitch,
            ;
            assert(self.pitch * self.height <= self.bits.len());
        }
        let row: usize = (stored as usize) * (self.pitch as usize);
        let at: usize = self.data_offset as usize + row + (BYTES_PER_PIXEL as usize) * (x as usize);
        Color { b: self.bits[at], g: self.bits[at + 1], r: self.bits[at + 2], a: self.bits[at + 3] }
    }
}

/// Decodes the bytes of a bitmap file whose rows lie in the order `rows`.
///
/// Three little-endian 32-bit numbers are read from the header: the index
/// of the first byte of pixel data, the width and the height. Rows are taken
/// to be packed. The bytes are refused if they end before the header or
/// before the pixel data does, or if one of the numbers is negative.
pub fn load_bitmap(bits: Vec<u8>, rows: RowOrder) -> (loaded: Result<LoadedBitmap, BitmapError>)
    ensures
        match loaded {
            Ok(bitmap) => Texture::defect(bits@) is None && bitmap.wf() && bitmap@
                == Texture::declared(bits@, rows),
            Err(error) => Texture::defect(bits@) == Some(error),
        },
{
    if bits.len() < HEADER_LEN {
        return Err(BitmapError::TruncatedHeader);
    }
    let data_offset = read_le_i32(&bits, DATA_OFFSET_AT);
    let width = read_le_i32(&bits, WIDTH_AT);
    let height = read_le_i32(&bits, HEIGHT_AT);
    if data_offset < 0 || width < 0 || height < 0 {
        return Err(BitmapError::NegativeField);
    }
    let pitch: i64 = product(BYTES_PER_PIXEL, width);
    assert(0 <= pitch * height <= 0x2_0000_0000 * 0x8000_0000) by (nonlinear_arith)
        requires
            0 <= pitch <= 0x2_0000_0000,
            0 <= height <= 0x8000_0000,
    ;
    let needed: i128 = data_offset as i128 + pitch as i128 * height as i128;
    if needed > bits.len() as i128 {
        return Err(BitmapError::InsufficientData);
    }
    Ok(LoadedBitmap { bits, height, width, pitch, data_offset, rows })
}

} // verus!
