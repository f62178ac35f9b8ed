//! Pixels as values.
use vstd::prelude::*;

verus! {

/// One pixel: a byte for each of red, green, blue and alpha.
#[derive(Copy, Clone, Debug)]
pub struct Pixel {
    r: u8,
    g: u8,
    b: u8,
    a: u8,
}

/// A rectangle of pixels, in rows from the top.
pub struct PixelBuffer {
    width: u32,
    height: u32,
    pixels: Vec<Pixel>,
}

} // verus!
