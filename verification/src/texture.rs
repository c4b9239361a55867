//! Texture coordinates and the textures that need no arithmetic.

use crate::scalar::Scalar;
use crate::vec3::{Colour, Point3, F};
use vstd::prelude::*;

verus! {

/// A colour for every point of a surface.
pub trait Texture {
    /// The colour at the surface coordinates `tp` and the point `p`.
    fn value(&self, tp: TexturePoint, p: Point3) -> Colour;
}

/// What `texture.value(tp, p)` may return.
pub open spec fn may_sample<T: Texture>(texture: &T, tp: TexturePoint, p: Point3, c: Colour) -> bool {
    call_ensures(T::value, (texture, tp, p), c)
}

/// Surface coordinates `(u, v)`.
#[derive(Clone, Copy, Debug, PartialEq, Eq, Structural)]
pub struct TexturePoint {
    pub u: F,
    pub v: F,
}

impl TexturePoint {
    pub fn new(u: F, v: F) -> (r: TexturePoint)
        ensures
            r == (TexturePoint { u, v }),
    {
        TexturePoint { u, v }
    }

    pub fn u(&self) -> (r: F)
        ensures
            r == self.u,
    {
        self.u
    }

    pub fn v(&self) -> (r: F)
        ensures
            r == self.v,
    {
        self.v
    }
}

/// The same colour everywhere.
#[derive(Clone, Copy, Debug, PartialEq, Eq, Structural)]
pub struct SolidColour {
    pub colour: Colour,
}

impl SolidColour {
    pub fn new(colour: Colour) -> (r: SolidColour)
        ensures
            r.colour == colour,
    {
        SolidColour { colour }
    }

    pub fn rgb(r: F, g: F, b: F) -> (s: SolidColour)
        ensures
            s.colour == (Colour { x: r, y: g, z: b }),
    {
        SolidColour::new(Colour::new(r, g, b))
    }
}

impl Texture for SolidColour {
    fn value(&self, _tp: TexturePoint, _p: Point3) -> (c: Colour)
        ensures
            c == self.colour,
    {
        self.colour
    }
}

/// Two textures laid out as a three-dimensional checkerboard.
pub struct Checkered<T> {
    pub odd: T,
    pub even: T,
}

impl<T> Checkered<T> {
    pub fn new(odd: T, even: T) -> (r: Checkered<T>)
        ensures
            r.odd == odd,
            r.even == even,
    {
        Checkered { odd, even }
    }

    /// The texture of the cell in which the product of the three sines of the
    /// scaled coordinates is `sines`: `odd` where it is negative, else `even`.
    pub fn select(&self, sines: F) -> (r: &T)
        ensures
            *r == if sines.spec_lt(Scalar { bits: 0 }) {
                self.odd
            } else {
                self.even
            },
    {
        if sines.lt(Scalar::zero()) {
            &self.odd
        } else {
            &self.even
        }
    }
}

impl Checkered<SolidColour> {
    /// A checkerboard of two colours.
    pub fn colour(odd_colour: Colour, even_colour: Colour) -> (r: Checkered<SolidColour>)
        ensures
            r.odd.colour == odd_colour,
            r.even.colour == even_colour,
    {
        Checkered { odd: SolidColour::new(odd_colour), even: SolidColour::new(even_colour) }
    }
}

} // verus!
