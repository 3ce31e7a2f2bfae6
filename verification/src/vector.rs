use vstd::prelude::*;
use crate::arith::{floor_sqrt, is_floor_sqrt, isqrt, magnitude};

verus! {

/// Sub-pixel units in one pixel: coordinates count thousandths of a pixel.
pub const UNITS_PER_PIXEL: i64 = 1000;

/// A point or an offset in the plane, in thousandths of a pixel.
#[derive(Clone, Copy, Debug, PartialEq, Eq, Structural)]
pub struct V2 {
    pub x: i64,
    pub y: i64,
}

impl V2 {
    /// Squared Euclidean length.
    pub open spec fn norm_squared(self) -> int {
        self.x * self.x + self.y * self.y
    }

    /// Euclidean length, rounded down to a whole unit.
    pub open spec fn length(self) -> int {
        floor_sqrt(self.norm_squared())
    }
}

/// Euclidean length of `a`, rounded down to a whole unit.
pub fn v2_length(a: V2) -> (len: u64)
    ensures
        len == a.length(),
        is_floor_sqrt(len as int, a.norm_squared()),
{
    let x: u128 = magnitude(a.x) as u128;
    let y: u128 = magnitude(a.y) as u128;
    assert(x * x == a.x * a.x && x * x <= 0x4000_0000_0000_0000_0000_0000_0000_0000) by (nonlinear_arith)
        requires
            x == a.x || x == -a.x,
            0 <= x <= 0x8000_0000_0000_0000,
    ;
    assert(y * y == a.y * a.y && y * y <= 0x4000_0000_0000_0000_0000_0000_0000_0000) by (nonlinear_arith)
        requires
            y == a.y || y == -a.y,
            0 <= y <= 0x8000_0000_0000_0000,
    ;
    isqrt(x * x + y * y)
}

/// Addition by coordinates. The sum has to lie in the coordinate range.
impl core::ops::Add for V2 {
    type Output = V2;

    fn add(self, a: V2) -> (sum: V2) {
        V2 { x: self.x + a.x, y: self.y + a.y }
    }
}

impl vstd::std_specs::ops::AddSpecImpl for V2 {
    open spec fn obeys_add_spec() -> bool {
        true
    }

    open spec fn add_req(self, a: V2) -> bool {
        &&& i64::MIN <= self.x + a.x <= i64::MAX
        &&& i64::MIN <= self.y + a.y <= i64::MAX
    }

    open spec fn add_spec(self, a: V2) -> V2 {
        V2 { x: (self.x + a.x) as i64, y: (self.y + a.y) as i64 }
    }
}

/// Subtraction by coordinates. The difference has to lie in the coordinate
/// range.
impl core::ops::Sub for V2 {
    type Output = V2;

    fn sub(self, a: V2) -> (difference: V2) {
        V2 { x: self.x - a.x, y: self.y - a.y }
    }
}

impl vstd::std_specs::ops::SubSpecImpl for V2 {
    open spec fn obeys_sub_spec() -> bool {
        true
    }

    open spec fn sub_req(self, a: V2) -> bool {
        &&& i64::MIN <= self.x - a.x <= i64::MAX
        &&& i64::MIN <= self.y - a.y <= i64::MAX
    }

    open spec fn sub_spec(self, a: V2) -> V2 {
        V2 { x: (self.x - a.x) as i64, y: (self.y - a.y) as i64 }
    }
}

/// Whole pixels in a coordinate: the fraction is dropped, which rounds
/// toward zero.
pub open spec fn whole_pixels(v: int) -> int {
    if v >= 0 {
        v / (UNITS_PER_PIXEL as int)
    } else {
        -((-v) / (UNITS_PER_PIXEL as int))
    }
}

/// The nearest number that a pixel index can hold.
pub open spec fn clamp_to_i32(v: int) -> int {
    if v < i32::MIN {
        i32::MIN as int
    } else if v > i32::MAX {
        i32::MAX as int
    } else {
        v
    }
}

/// Index of the pixel column or row that a coordinate falls into.
pub open spec fn pixel_index(v: int) -> int {
    clamp_to_i32(whole_pixels(v))
}

/// Index of the pixel column or row that a coordinate falls into.
pub fn to_pixel(v: i128) -> (p: i32)
    ensures
        p == pixel_index(v as int),
{
    let whole: i128 = v / (UNITS_PER_PIXEL as i128);
    if whole < i32::MIN as i128 {
        i32::MIN
    } else if whole > i32::MAX as i128 {
        i32::MAX
    } else {
        whole as i32
    }
}

} // verus!
