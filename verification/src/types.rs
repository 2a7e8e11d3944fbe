//! Small value types shared across the drawing model: handles, colors, line
//! weights and transparency.
use vstd::prelude::*;

verus! {

/// A drawing-database object identifier; 0 is the null handle.
#[derive(Clone, Copy, Debug, PartialEq, Eq, Hash, Structural)]
pub struct Handle(pub u64);

impl Handle {
    /// The null handle.
    pub fn null() -> (r: Self)
        ensures
            r.0 == 0,
    {
        Handle(0)
    }

    pub fn new(value: u64) -> (r: Self)
        ensures
            r.0 == value,
    {
        Handle(value)
    }

    pub fn value(&self) -> (r: u64)
        ensures
            r == self.0,
    {
        self.0
    }

    pub fn is_null(&self) -> (r: bool)
        ensures
            r == (self.0 == 0),
    {
        self.0 == 0
    }
}

/// A layer or entity color as a drawing stores it: the palette (ACI) index,
/// and the 24-bit true color where one was chosen.
#[derive(Clone, Copy, Debug, PartialEq, Eq)]
pub struct Color {
    pub index: i16,
    pub true_color: Option<i32>,
}

impl Color {
    /// The palette color with the given index.
    pub fn from_index(index: i16) -> (r: Self)
        ensures
            r.index == index,
            r.true_color is None,
    {
        Color { index, true_color: None }
    }

    /// The palette index that stands for this color.
    pub fn approximate_index(&self) -> (r: i16)
        ensures
            r == self.index,
    {
        self.index
    }

    /// The 24-bit true-color value, where the color has one.
    pub fn to_true_color_value(&self) -> (r: Option<i32>)
        ensures
            r == self.true_color,
    {
        self.true_color
    }
}

/// A line weight in hundredths of a millimetre, or one of the negative
/// special values (-1 ByLayer, -2 ByBlock, -3 Default).
#[derive(Clone, Copy, Debug, PartialEq, Eq, Structural)]
pub struct LineWeight(pub i16);

impl LineWeight {
    pub fn from_value(value: i16) -> (r: Self)
        ensures
            r.0 == value,
    {
        LineWeight(value)
    }

    pub fn value(&self) -> (r: i16)
        ensures
            r == self.0,
    {
        self.0
    }
}

/// A transparency, held as its DXF alpha value (group code 440).
#[derive(Clone, Copy, Debug, PartialEq, Eq, Structural)]
pub struct Transparency(pub u32);

impl Transparency {
    pub fn from_alpha_value(value: u32) -> (r: Self)
        ensures
            r.0 == value,
    {
        Transparency(value)
    }

    /// The value written to DXF group code 440 (the same 32 bits, signed).
    pub fn to_dxf_value(&self) -> (r: i32)
        ensures
            r == self.0 as i32,
    {
        self.0 as i32
    }
}

/// A 2D vector whose coordinates are carried as IEEE-754 `f64` bit
/// patterns.
#[derive(Clone, Copy, Debug, PartialEq, Eq, Structural)]
pub struct Vector2 {
    pub x: u64,
    pub y: u64,
}

/// A 3D vector whose coordinates are carried as IEEE-754 `f64` bit
/// patterns: the code here only stores, compares and moves them.
#[derive(Clone, Copy, Debug, PartialEq, Eq, Structural)]
pub struct Vector3 {
    pub x: u64,
    pub y: u64,
    pub z: u64,
}

impl Vector3 {
    pub fn new(x: u64, y: u64, z: u64) -> (r: Self)
        ensures
            r == (Vector3 { x, y, z }),
    {
        Vector3 { x, y, z }
    }

    /// The zero vector (all three coordinates `+0.0`).
    pub fn zero() -> (r: Self)
        ensures
            r == (Vector3 { x: 0, y: 0, z: 0 }),
    {
        Vector3 { x: 0, y: 0, z: 0 }
    }
}

} // verus!
