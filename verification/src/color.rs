use vstd::prelude::*;
use crate::convert::clip;
use crate::scalar::Scalar;

verus! {

/// A colour in linear light: red, green and blue, each unbounded until it is clamped.
#[derive(Clone, Copy, Debug, PartialEq, Eq)]
pub struct Color {
    pub r: Scalar,
    pub g: Scalar,
    pub b: Scalar,
}

impl Color {
    /// Every channel moved into the range from zero to one.
    pub open spec fn clamped(self) -> Color {
        Color {
            r: self.r.clamped(Scalar::zero(), Scalar::one()),
            g: self.g.clamped(Scalar::zero(), Scalar::one()),
            b: self.b.clamped(Scalar::zero(), Scalar::one()),
        }
    }

    /// The colour's channels stand for the three bytes, 255 being full strength.
    pub open spec fn is_rgb(self, r: u8, g: u8, b: u8) -> bool {
        self.r.is_channel(r) && self.g.is_channel(g) && self.b.is_channel(b)
    }

    /// The red byte of a colour written as one number, `0xRRGGBB`.
    pub open spec fn hex_red(hex: u32) -> u8 {
        ((hex / 0x1_0000) % 0x100) as u8
    }

    /// The green byte of a colour written as one number, `0xRRGGBB`.
    pub open spec fn hex_green(hex: u32) -> u8 {
        ((hex / 0x100) % 0x100) as u8
    }

    /// The blue byte of a colour written as one number, `0xRRGGBB`.
    pub open spec fn hex_blue(hex: u32) -> u8 {
        (hex % 0x100) as u8
    }

    /// Black: every channel is positive zero.
    pub open spec fn black() -> Color {
        Color { r: Scalar::zero(), g: Scalar::zero(), b: Scalar::zero() }
    }

    /// The colour of the three channels.
    pub fn new(r: Scalar, g: Scalar, b: Scalar) -> (c: Color)
        ensures
            c == (Color { r, g, b }),
    {
        Color { r, g, b }
    }

    /// The colour written as one number, `0xRRGGBB`; what stands above the red byte is
    /// not read.
    pub fn from_hex(hex: u32) -> (c: Color)
        ensures
            c.is_rgb(Color::hex_red(hex), Color::hex_green(hex), Color::hex_blue(hex)),
    {
        let r: u32 = (hex >> 16) & 0xFF;
        let g: u32 = (hex >> 8) & 0xFF;
        let b: u32 = hex & 0xFF;
        assert(r == (hex / 0x1_0000) % 0x100) by (bit_vector)
            requires
                r == (hex >> 16) & 0xFF,
        ;
        assert(g == (hex / 0x100) % 0x100) by (bit_vector)
            requires
                g == (hex >> 8) & 0xFF,
        ;
        assert(b == hex % 0x100) by (bit_vector)
            requires
                b == hex & 0xFF,
        ;
        Color {
            r: Scalar::from_channel(r as u8),
            g: Scalar::from_channel(g as u8),
            b: Scalar::from_channel(b as u8),
        }
    }

    /// The colour of three bytes: red, green, blue.
    pub fn from_rgb(value: [u8; 3]) -> (c: Color)
        ensures
            c.is_rgb(value[0], value[1], value[2]),
    {
        Color {
            r: Scalar::from_channel(value[0]),
            g: Scalar::from_channel(value[1]),
            b: Scalar::from_channel(value[2]),
        }
    }

    /// The colour of a pixel of four bytes: red, green, blue, and an alpha that is not
    /// read.
    pub fn from_pixel(value: [u8; 4]) -> (c: Color)
        ensures
            c.is_rgb(value[0], value[1], value[2]),
    {
        Color {
            r: Scalar::from_channel(value[0]),
            g: Scalar::from_channel(value[1]),
            b: Scalar::from_channel(value[2]),
        }
    }

    /// The colour as the four bytes of an opaque display pixel. The channels are read as
    /// already encoded for the display and scaled to 255: each is cut down to its
    /// integer part and held to the range of a byte, and the alpha byte is 255.
    pub fn to_bytes(&self) -> (bytes: [u8; 4])
        ensures
            bytes[0] == clip(self.r.truncated(), 0, 255),
            bytes[1] == clip(self.g.truncated(), 0, 255),
            bytes[2] == clip(self.b.truncated(), 0, 255),
            bytes[3] == 255,
    {
        [self.r.to_u8(), self.g.to_u8(), self.b.to_u8(), 255]
    }

    /// Every channel moved into the range from zero to one: a channel below zero becomes
    /// zero, one above one becomes one, and any other, also one that is no number, stays.
    pub fn clamp(self) -> (c: Color)
        ensures
            c == self.clamped(),
            c.r.nan() || (Scalar::zero().at_most(c.r) && c.r.at_most(Scalar::one())),
            c.g.nan() || (Scalar::zero().at_most(c.g) && c.g.at_most(Scalar::one())),
            c.b.nan() || (Scalar::zero().at_most(c.b) && c.b.at_most(Scalar::one())),
    {
        Color {
            r: self.r.clamp(Scalar::zero(), Scalar::one()),
            g: self.g.clamp(Scalar::zero(), Scalar::one()),
            b: self.b.clamp(Scalar::zero(), Scalar::one()),
        }
    }
}

impl Default for Color {
    /// Black.
    fn default() -> (c: Color)
        ensures
            c == Color::black(),
    {
        Color { r: Scalar::zero(), g: Scalar::zero(), b: Scalar::zero() }
    }
}

} // verus!
