//! Colors and materials.
use vstd::prelude::*;
use vstd::std_specs::ops::AddSpecImpl;
use vstd::std_specs::ops::MulSpecImpl;
use crate::scalar::Scalar;

verus! {

/// Four channels: red, green, blue and alpha.
#[derive(Debug, Copy, Clone, PartialEq, Eq)]
pub struct Color<T> {
    pub r: T,
    pub g: T,
    pub b: T,
    pub a: T,
}

/// A color as it lies in a pixel buffer: one byte per channel.
#[derive(Debug, Copy, Clone, PartialEq, Eq)]
pub struct ColorBytes {
    pub r: u8,
    pub g: u8,
    pub b: u8,
    pub a: u8,
}

/// Sum of two channels, held at 255.
pub open spec fn saturating_sum(x: u8, y: u8) -> u8 {
    if x + y > 255 {
        255u8
    } else {
        (x + y) as u8
    }
}

/// Product of two channels, held at 255.
pub open spec fn saturating_product(x: u8, y: u8) -> u8 {
    if x * y > 255 {
        255u8
    } else {
        (x * y) as u8
    }
}

fn channel_product(x: u8, y: u8) -> (r: u8)
    ensures
        r == saturating_product(x, y),
{
    match x.checked_mul(y) {
        Some(product) => product,
        None => 255,
    }
}

/// The color drawn where a ray meets nothing.
pub open spec fn background() -> Color<u8> {
    Color { r: 10, g: 100, b: 10, a: 255 }
}

/// The color drawn where a ray meets nothing.
pub fn bg_color() -> (c: Color<u8>)
    ensures
        c == background(),
{
    Color { r: 10, g: 100, b: 10, a: 255 }
}

impl Color<u8> {
    /// The four channels as bytes.
    pub fn get_bytes(self) -> (r: Result<ColorBytes, i32>)
        ensures
            r == Ok::<ColorBytes, i32>(ColorBytes { r: self.r, g: self.g, b: self.b, a: self.a }),
    {
        Ok(ColorBytes { r: self.r, g: self.g, b: self.b, a: self.a })
    }
}

impl core::ops::Add for Color<u8> {
    type Output = Self;

    /// Channel by channel, held at 255.
    fn add(self, rhs: Self) -> (sum: Self) {
        Color {
            r: self.r.saturating_add(rhs.r),
            g: self.g.saturating_add(rhs.g),
            b: self.b.saturating_add(rhs.b),
            a: self.a.saturating_add(rhs.a),
        }
    }
}

impl AddSpecImpl for Color<u8> {
    open spec fn obeys_add_spec() -> bool {
        true
    }

    open spec fn add_req(self, rhs: Self) -> bool {
        true
    }

    open spec fn add_spec(self, rhs: Self) -> Self {
        Color {
            r: saturating_sum(self.r, rhs.r),
            g: saturating_sum(self.g, rhs.g),
            b: saturating_sum(self.b, rhs.b),
            a: saturating_sum(self.a, rhs.a),
        }
    }
}

impl core::ops::Mul for Color<u8> {
    type Output = Self;

    /// Channel by channel, held at 255.
    fn mul(self, rhs: Self) -> (product: Self) {
        Color {
            r: channel_product(self.r, rhs.r),
            g: channel_product(self.g, rhs.g),
            b: channel_product(self.b, rhs.b),
            a: channel_product(self.a, rhs.a),
        }
    }
}

impl MulSpecImpl for Color<u8> {
    open spec fn obeys_mul_spec() -> bool {
        true
    }

    open spec fn mul_req(self, rhs: Self) -> bool {
        true
    }

    open spec fn mul_spec(self, rhs: Self) -> Self {
        Color {
            r: saturating_product(self.r, rhs.r),
            g: saturating_product(self.g, rhs.g),
            b: saturating_product(self.b, rhs.b),
            a: saturating_product(self.a, rhs.a),
        }
    }
}

impl Color<Scalar> {
    /// Each channel clamped to `0.0..=255.0` and rounded toward zero.
    pub open spec fn quantized(self) -> Color<u8> {
        Color {
            r: self.r.channel() as u8,
            g: self.g.channel() as u8,
            b: self.b.channel() as u8,
            a: self.a.channel() as u8,
        }
    }

    /// Converts to 8-bit channels: each is clamped to `0.0..=255.0` and
    /// rounded toward zero.
    pub fn quantize(self) -> (c: Color<u8>)
        ensures
            c == self.quantized(),
    {
        Color {
            r: self.r.to_channel(),
            g: self.g.to_channel(),
            b: self.b.to_channel(),
            a: self.a.to_channel(),
        }
    }
}

/// What a surface is made of.
#[derive(Debug, Copy, Clone, PartialEq, Eq)]
pub enum Material {
    /// Scatters light evenly.
    Matte { color: Color<u8> },
    /// Shows highlights, with the exponent `specular`, and mirrors its
    /// surroundings by the share `reflectiveness`.
    Specular { color: Color<u8>, specular: Scalar, reflectiveness: Scalar },
}

impl Material {
    /// The color of the surface before any light falls on it.
    pub open spec fn base_color(self) -> Color<u8> {
        match self {
            Material::Matte { color } => color,
            Material::Specular { color, .. } => color,
        }
    }
}

} // verus!
