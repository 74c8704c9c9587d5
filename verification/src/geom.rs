//! Scene geometry. Coordinates, sizes, colour channels and stroke widths are
//! IEEE-754 single-precision numbers; the library carries each one by its bit
//! pattern and compares them as IEEE-754 does. Arithmetic on them is the
//! renderer's business and happens outside this crate.

use vstd::prelude::*;

verus! {

/// A single-precision number held by its IEEE-754 bit pattern.
#[derive(Clone, Copy, Debug)]
pub struct Real {
    pub bits: u32,
}

/// The bit pattern is a NaN: all exponent bits set and a non-zero mantissa.
pub open spec fn is_nan_bits(bits: u32) -> bool {
    (bits & 0x7fff_ffffu32) > 0x7f80_0000u32
}

/// IEEE-754 equality: no NaN equals anything, and the two zeros are equal.
pub open spec fn real_eq(a: Real, b: Real) -> bool {
    &&& !is_nan_bits(a.bits)
    &&& !is_nan_bits(b.bits)
    &&& (a.bits == b.bits || (a.bits | b.bits) & 0x7fff_ffffu32 == 0)
}

impl Real {
    /// Zero, with a clear sign bit.
    pub const ZERO_BITS: u32 = 0;
    /// One.
    pub const ONE_BITS: u32 = 0x3f80_0000;

    pub fn from_bits(bits: u32) -> (r: Real)
        ensures
            r.bits == bits,
    {
        Real { bits }
    }

    pub fn zero() -> (r: Real)
        ensures
            r.bits == 0,
    {
        Real { bits: 0 }
    }

    pub fn one() -> (r: Real)
        ensures
            r.bits == Real::ONE_BITS,
    {
        Real { bits: Real::ONE_BITS }
    }

    pub fn is_nan(&self) -> (b: bool)
        ensures
            b == is_nan_bits(self.bits),
    {
        (self.bits & 0x7fff_ffff) > 0x7f80_0000
    }

    /// Equality as IEEE-754 defines it.
    pub fn same_as(&self, other: &Real) -> (b: bool)
        ensures
            b == real_eq(*self, *other),
    {
        !self.is_nan() && !other.is_nan() && (self.bits == other.bits || (self.bits | other.bits)
            & 0x7fff_ffff == 0)
    }
}

/// A position in the scene, in tiles.
#[derive(Clone, Copy, Debug)]
pub struct Point {
    pub x: Real,
    pub y: Real,
}

pub open spec fn point_eq(a: Point, b: Point) -> bool {
    real_eq(a.x, b.x) && real_eq(a.y, b.y)
}

impl Point {
    pub fn new(x: Real, y: Real) -> (p: Point)
        ensures
            p.x == x && p.y == y,
    {
        Point { x, y }
    }

    /// The point with both coordinates zero.
    pub fn origin() -> (p: Point)
        ensures
            p.x.bits == 0 && p.y.bits == 0,
    {
        Point { x: Real::zero(), y: Real::zero() }
    }

    /// A point with both coordinates equal to `value`.
    pub fn same(value: Real) -> (p: Point)
        ensures
            p.x == value && p.y == value,
    {
        Point { x: value, y: value }
    }

    pub fn same_as(&self, other: &Point) -> (b: bool)
        ensures
            b == point_eq(*self, *other),
    {
        self.x.same_as(&other.x) && self.y.same_as(&other.y)
    }
}

/// One of the four numbers of a rectangle.
#[derive(Clone, Copy, Debug, PartialEq, Eq, Structural)]
pub enum Dimension {
    X,
    Y,
    W,
    H,
}

/// A rectangle given by its corner and its (possibly negative) size.
#[derive(Clone, Copy, Debug)]
pub struct Rect {
    pub x: Real,
    pub y: Real,
    pub w: Real,
    pub h: Real,
}

/// The rectangle with one of its numbers replaced.
pub open spec fn with_dimension(r: Rect, dimension: Dimension, value: Real) -> Rect {
    match dimension {
        Dimension::X => Rect { x: value, ..r },
        Dimension::Y => Rect { y: value, ..r },
        Dimension::W => Rect { w: value, ..r },
        Dimension::H => Rect { h: value, ..r },
    }
}

pub open spec fn rect_eq(a: Rect, b: Rect) -> bool {
    real_eq(a.x, b.x) && real_eq(a.y, b.y) && real_eq(a.w, b.w) && real_eq(a.h, b.h)
}

impl Rect {
    pub fn new(x: Real, y: Real, w: Real, h: Real) -> (r: Rect)
        ensures
            r == (Rect { x, y, w, h }),
    {
        Rect { x, y, w, h }
    }

    pub fn at(point: Point, w: Real, h: Real) -> (r: Rect)
        ensures
            r == (Rect { x: point.x, y: point.y, w, h }),
    {
        Rect { x: point.x, y: point.y, w, h }
    }

    /// A copy of this rectangle with one of its numbers replaced.
    pub fn dimension(&self, dimension: Dimension, value: Real) -> (r: Rect)
        ensures
            r == with_dimension(*self, dimension, value),
            r.x == (if dimension == Dimension::X { value } else { self.x }),
            r.y == (if dimension == Dimension::Y { value } else { self.y }),
            r.w == (if dimension == Dimension::W { value } else { self.w }),
            r.h == (if dimension == Dimension::H { value } else { self.h }),
    {
        let mut rect = *self;
        match dimension {
            Dimension::X => {
                rect.x = value;
            },
            Dimension::Y => {
                rect.y = value;
            },
            Dimension::W => {
                rect.w = value;
            },
            Dimension::H => {
                rect.h = value;
            },
        }
        rect
    }

    pub fn top_left(&self) -> (p: Point)
        ensures
            p.x == self.x && p.y == self.y,
    {
        Point { x: self.x, y: self.y }
    }

    pub open spec fn moved_to_spec(self, point: Point) -> Rect {
        Rect { x: point.x, y: point.y, w: self.w, h: self.h }
    }

    /// The same size, with its corner at `point`.
    pub fn moved_to(&self, point: Point) -> (r: Rect)
        ensures
            r == (Rect { x: point.x, y: point.y, w: self.w, h: self.h }),
    {
        Rect { x: point.x, y: point.y, w: self.w, h: self.h }
    }

    /// The same corner, with the size `w` by `h`.
    pub fn sized_as(&self, w: Real, h: Real) -> (r: Rect)
        ensures
            r == (Rect { x: self.x, y: self.y, w, h }),
    {
        Rect { x: self.x, y: self.y, w, h }
    }

    pub fn same_as(&self, other: &Rect) -> (b: bool)
        ensures
            b == rect_eq(*self, *other),
    {
        self.x.same_as(&other.x) && self.y.same_as(&other.y) && self.w.same_as(&other.w)
            && self.h.same_as(&other.h)
    }
}

/// A colour as red, green, blue and alpha channels.
#[derive(Clone, Copy, Debug)]
pub struct Colour(pub [Real; 4]);

pub open spec fn colour_eq(a: Colour, b: Colour) -> bool {
    &&& real_eq(a.0[0], b.0[0])
    &&& real_eq(a.0[1], b.0[1])
    &&& real_eq(a.0[2], b.0[2])
    &&& real_eq(a.0[3], b.0[3])
}

impl Colour {
    pub fn r(&self) -> (c: Real)
        ensures
            c == self.0[0],
    {
        self.0[0]
    }

    pub fn g(&self) -> (c: Real)
        ensures
            c == self.0[1],
    {
        self.0[1]
    }

    pub fn b(&self) -> (c: Real)
        ensures
            c == self.0[2],
    {
        self.0[2]
    }

    pub fn a(&self) -> (c: Real)
        ensures
            c == self.0[3],
    {
        self.0[3]
    }

    /// The same colour with its alpha channel replaced.
    pub fn with_opacity(self, opacity: Real) -> (c: Colour)
        ensures
            c.0[0] == self.0[0],
            c.0[1] == self.0[1],
            c.0[2] == self.0[2],
            c.0[3] == opacity,
    {
        Colour([self.0[0], self.0[1], self.0[2], opacity])
    }

    pub fn same_as(&self, other: &Colour) -> (b: bool)
        ensures
            b == colour_eq(*self, *other),
    {
        self.0[0].same_as(&other.0[0]) && self.0[1].same_as(&other.0[1]) && self.0[2].same_as(
            &other.0[2],
        ) && self.0[3].same_as(&other.0[3])
    }
}

} // verus!
