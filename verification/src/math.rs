//! Pairs, triples and colours of binary32 numbers.

use crate::single::Single;
use vstd::prelude::*;

verus! {

/// A point or an extent in virtual pixels.
#[derive(Clone, Copy, Debug, PartialEq, Eq, Structural)]
pub struct Vec2 {
    pub x: Single,
    pub y: Single,
}

/// A position with a depth.
#[derive(Clone, Copy, Debug, PartialEq, Eq, Structural)]
pub struct Vec3 {
    pub x: Single,
    pub y: Single,
    pub z: Single,
}

/// A colour as red, green, blue and alpha.
#[derive(Clone, Copy, Debug, PartialEq, Eq, Structural)]
pub struct Color {
    pub red: Single,
    pub green: Single,
    pub blue: Single,
    pub alpha: Single,
}

impl Vec2 {
    /// Both components are zero, with the sign bit clear.
    pub open spec fn spec_zero() -> Vec2 {
        Vec2 { x: Single { bits: 0 }, y: Single { bits: 0 } }
    }

    /// The floor of each component.
    pub open spec fn spec_floor(self) -> Vec2 {
        Vec2 { x: self.x.spec_floor(), y: self.y.spec_floor() }
    }

    /// Each component times `factor`.
    pub open spec fn spec_scale(self, factor: Single) -> Vec2 {
        Vec2 { x: self.x.spec_multiply(factor), y: self.y.spec_multiply(factor) }
    }

    /// The pair with a depth behind it.
    pub open spec fn spec_extend(self, z: Single) -> Vec3 {
        Vec3 { x: self.x, y: self.y, z }
    }

    /// Both components are greater than zero.
    pub open spec fn spec_is_positive(self) -> bool {
        self.x.spec_is_positive() && self.y.spec_is_positive()
    }

    #[verifier::when_used_as_spec(spec_zero)]
    pub fn zero() -> (r: Vec2)
        ensures
            r == Vec2::spec_zero(),
    {
        Vec2 { x: Single { bits: 0 }, y: Single { bits: 0 } }
    }

    pub fn new(x: Single, y: Single) -> (r: Vec2)
        ensures
            r.x == x,
            r.y == y,
    {
        Vec2 { x, y }
    }

    /// The same number in both components.
    pub fn splat(v: Single) -> (r: Vec2)
        ensures
            r.x == v,
            r.y == v,
    {
        Vec2 { x: v, y: v }
    }

    #[verifier::when_used_as_spec(spec_is_positive)]
    pub fn is_positive(self) -> (r: bool)
        ensures
            r == self.spec_is_positive(),
    {
        self.x.is_positive() && self.y.is_positive()
    }

    #[verifier::when_used_as_spec(spec_floor)]
    pub fn floor(self) -> (r: Vec2)
        ensures
            r == self.spec_floor(),
            self.x.has_floor(r.x),
            self.y.has_floor(r.y),
    {
        Vec2 { x: self.x.floor(), y: self.y.floor() }
    }

    #[verifier::when_used_as_spec(spec_scale)]
    pub fn scale(self, factor: Single) -> (r: Vec2)
        ensures
            r == self.spec_scale(factor),
    {
        Vec2 { x: self.x.multiply(factor), y: self.y.multiply(factor) }
    }

    #[verifier::when_used_as_spec(spec_extend)]
    pub fn extend(self, z: Single) -> (r: Vec3)
        ensures
            r == self.spec_extend(z),
    {
        Vec3 { x: self.x, y: self.y, z }
    }
}

impl Color {
    /// Opaque black.
    pub open spec fn spec_black() -> Color {
        Color {
            red: Single { bits: 0 },
            green: Single { bits: 0 },
            blue: Single { bits: 0 },
            alpha: Single { bits: 0x3f80_0000 },
        }
    }

    #[verifier::when_used_as_spec(spec_black)]
    pub fn black() -> (r: Color)
        ensures
            r == Color::spec_black(),
    {
        Color {
            red: Single { bits: 0 },
            green: Single { bits: 0 },
            blue: Single { bits: 0 },
            alpha: Single { bits: 0x3f80_0000 },
        }
    }
}

} // verus!
