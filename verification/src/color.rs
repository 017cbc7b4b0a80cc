//! Linear-light RGB color and its display pixel form.
//!
//! A color's channels are Q16.16 linear-light intensities: construction from
//! display-space components gamma-decodes them, and conversion to an 8-bit
//! pixel gamma-encodes, scales to 255 and saturates. Sums and scalings act
//! directly on the linear channels, as summing light contributions requires.

use vstd::prelude::*;
use crate::fixed::{fmul, fmul_s, mag, SCALE};
use crate::gamma::{decode_s, encode_s, gamma_decode, gamma_encode, lemma_decode_mono,
    lemma_encode_s};

verus! {

/// A color in linear light, Q16.16 per channel.
#[derive(Clone, Copy, PartialEq, Eq, Structural, Debug)]
pub struct Color {
    pub red: i64,
    pub green: i64,
    pub blue: i64,
}

/// The mathematical value of a color: unbounded linear channels.
pub struct Cv {
    pub red: int,
    pub green: int,
    pub blue: int,
}

impl View for Color {
    type V = Cv;

    open spec fn view(&self) -> Cv {
        Cv { red: self.red as int, green: self.green as int, blue: self.blue as int }
    }
}

/// Channelwise sum of linear colors.
pub open spec fn cadd(a: Cv, b: Cv) -> Cv {
    Cv { red: a.red + b.red, green: a.green + b.green, blue: a.blue + b.blue }
}

/// Each linear channel scaled by the fixed-point factor `s`.
pub open spec fn cscale(a: Cv, s: int) -> Cv {
    Cv { red: fmul_s(a.red, s), green: fmul_s(a.green, s), blue: fmul_s(a.blue, s) }
}

/// All channels are nonnegative.
pub open spec fn cwf(a: Cv) -> bool {
    0 <= a.red && 0 <= a.green && 0 <= a.blue
}

/// All channels are at most `m`.
pub open spec fn cbound(a: Cv, m: int) -> bool {
    a.red <= m && a.green <= m && a.blue <= m
}

/// The 8-bit display value of one linear channel: gamma-encoded, scaled to
/// 255 and truncated; the encoder saturates, so the value never passes 255.
pub open spec fn pix_of(c: int) -> int {
    (encode_s(c) * 255) / 65536
}

/// An 8-bit display pixel, in blue-green-red-alpha channel order.
#[derive(Clone, Copy, PartialEq, Eq, Structural, Debug)]
pub struct Pixel {
    pub b: u8,
    pub g: u8,
    pub r: u8,
    pub a: u8,
}

/// Gamma-encodes one linear channel to its 8-bit display value.
fn channel_to_byte(c: i64) -> (r: u8)
    requires
        c >= 0,
    ensures
        r as int == pix_of(c as int),
{
    let e = gamma_encode(c);
    proof {
        lemma_encode_s(c as int);
        assert(e * 255 <= 65536 * 255);
        vstd::arithmetic::div_mod::lemma_div_is_ordered((e * 255) as int, 65536int * 255, 65536);
        vstd::arithmetic::div_mod::lemma_div_pos_is_pos((e * 255) as int, 65536);
    }
    ((e * 255) / 65536) as u8
}

impl Color {
    /// Creates a `Color` from display-space ("sRGB-like") components given in
    /// Q16.16, each in `[0, SCALE]`; the channels are stored gamma-decoded.
    pub fn rgb(red: i64, green: i64, blue: i64) -> (r: Color)
        requires
            0 <= red <= SCALE,
            0 <= green <= SCALE,
            0 <= blue <= SCALE,
        ensures
            r@ == (Cv {
                red: decode_s(red as int),
                green: decode_s(green as int),
                blue: decode_s(blue as int),
            }),
            cwf(r@),
            cbound(r@, SCALE as int),
    {
        proof {
            lemma_decode_mono(red as int, SCALE as int);
            lemma_decode_mono(green as int, SCALE as int);
            lemma_decode_mono(blue as int, SCALE as int);
            crate::gamma::lemma_decode_full();
        }
        Color { red: gamma_decode(red), green: gamma_decode(green), blue: gamma_decode(blue) }
    }

    /// The additive identity: no light on any channel.
    pub fn black() -> (r: Color)
        ensures
            r@ == (Cv { red: 0, green: 0, blue: 0 }),
    {
        Color { red: 0, green: 0, blue: 0 }
    }

    /// Channelwise sum in linear light.
    pub fn add(&self, o: &Color) -> (r: Color)
        requires
            mag(self@.red + o@.red) <= i64::MAX as int,
            mag(self@.green + o@.green) <= i64::MAX as int,
            mag(self@.blue + o@.blue) <= i64::MAX as int,
        ensures
            r@ == cadd(self@, o@),
    {
        Color { red: self.red + o.red, green: self.green + o.green, blue: self.blue + o.blue }
    }

    /// Each linear channel scaled by the fixed-point factor `s`.
    pub fn mul(&self, s: i64) -> (r: Color)
        requires
            mag(fmul_s(self@.red, s as int)) <= i64::MAX as int,
            mag(fmul_s(self@.green, s as int)) <= i64::MAX as int,
            mag(fmul_s(self@.blue, s as int)) <= i64::MAX as int,
        ensures
            r@ == cscale(self@, s as int),
    {
        Color { red: fmul(self.red, s), green: fmul(self.green, s), blue: fmul(self.blue, s) }
    }

    /// Converts to the 8-bit display pixel: gamma-encode each channel, scale
    /// to 255, saturate; the alpha channel is fixed fully opaque.
    pub fn to_pixel(&self) -> (r: Pixel)
        requires
            cwf(self@),
        ensures
            r.b as int == pix_of(self@.blue),
            r.g as int == pix_of(self@.green),
            r.r as int == pix_of(self@.red),
            r.a == 255,
    {
        Pixel {
            b: channel_to_byte(self.blue),
            g: channel_to_byte(self.green),
            r: channel_to_byte(self.red),
            a: 255,
        }
    }
}

} // verus!
