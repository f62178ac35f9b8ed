//! A surface held in memory, four bytes to the pixel.
use vstd::prelude::*;
use crate::properties::Color;
use crate::properties::ColorBytes;
pub use crate::surface::Surface;

verus! {

/// A color takes four bytes: red, green, blue, alpha.
pub const COLOR_BYTE_SIZE: usize = 4;

/// Pixels in rows from the top, each row from the left, each pixel as its
/// four channel bytes.
pub struct PixelSurface {
    width: u32,
    height: u32,
    pixels: Vec<u8>,
}

impl View for PixelSurface {
    type V = Seq<u8>;

    /// The bytes of the buffer.
    closed spec fn view(&self) -> Seq<u8> {
        self.pixels@
    }
}

/// Where the first byte of pixel `(x, y)` lies in a buffer of rows `width`
/// pixels long.
pub open spec fn byte_offset(width: u32, x: u32, y: u32) -> int {
    4 * (y * width + x)
}

/// The pixels of a surface lie one after another, and each within the buffer.
pub proof fn lemma_byte_offset_bounds(width: u32, height: u32, x: u32, y: u32)
    requires
        x < width,
        y < height,
    ensures
        0 <= byte_offset(width, x, y),
        byte_offset(width, x, y) + 4 <= 4 * width * height,
        byte_offset(width, x, y) == 4 * x + y * (4 * width),
{
    assert(y * width + x + 1 <= height * width) by (nonlinear_arith)
        requires
            x < width,
            y < height,
    ;
    assert(4 * (y * width + x) + 4 <= 4 * width * height) by (nonlinear_arith)
        requires
            y * width + x + 1 <= height * width,
    ;
    assert(4 * (y * width + x) == 4 * x + y * (4 * width)) by (nonlinear_arith);
}

/// Two pixels of a surface share no byte.
pub proof fn lemma_byte_offsets_apart(width: u32, x: u32, y: u32, i: u32, j: u32)
    requires
        x < width,
        i < width,
        i != x || j != y,
    ensures
        byte_offset(width, i, j) + 4 <= byte_offset(width, x, y) || byte_offset(width, x, y) + 4
            <= byte_offset(width, i, j),
{
    if j < y {
        assert(j * width + i + 1 <= y * width + x) by (nonlinear_arith)
            requires
                j < y,
                i < width,
        ;
    } else if y < j {
        assert(y * width + x + 1 <= j * width + i) by (nonlinear_arith)
            requires
                y < j,
                x < width,
        ;
    }
}

impl PixelSurface {
    /// A surface of `width` by `height` pixels, every byte zero.
    pub fn new(width: u32, height: u32) -> (surface: Self)
        requires
            width * height * 4 <= u32::MAX,
        ensures
            surface.well_formed(),
            surface.width() == width,
            surface.height() == height,
            surface@ == Seq::new((4 * width * height) as nat, |i: int| 0u8),
    {
        proof {
            assert(width * height <= u32::MAX && 4 * width * height == width * height * 4)
                by (nonlinear_arith)
                requires
                    width * height * 4 <= u32::MAX,
            ;
        }
        let size: u32 = COLOR_BYTE_SIZE as u32;
        let length: u32 = width * height * size;
        let pixels: Vec<u8> = vec![0u8; length as usize];
        proof {
            assert(pixels@ =~= Seq::new((4 * width * height) as nat, |i: int| 0u8));
        }
        Self { width, height, pixels }
    }

    /// The bytes of the buffer.
    pub fn get_pixels(&self) -> (bytes: &[u8])
        ensures
            bytes@ == self@,
    {
        self.pixels.as_slice()
    }
}

impl Surface for PixelSurface {
    open spec fn well_formed(&self) -> bool {
        &&& self@.len() == 4 * self.width() * self.height()
        &&& 4 * self.width() * self.height() <= u32::MAX
    }

    closed spec fn width(&self) -> u32 {
        self.width
    }

    closed spec fn height(&self) -> u32 {
        self.height
    }

    open spec fn pixel(&self, x: u32, y: u32) -> Color<u8> {
        let at = byte_offset(self.width(), x, y);
        Color { r: self@[at], g: self@[at + 1], b: self@[at + 2], a: self@[at + 3] }
    }

    fn set_pixel(&mut self, x: u32, y: u32, color: &Color<u8>)
        ensures
            final(self)@ == old(self)@.update(
                byte_offset(old(self).width(), x, y),
                color.r,
            ).update(byte_offset(old(self).width(), x, y) + 1, color.g).update(
                byte_offset(old(self).width(), x, y) + 2,
                color.b,
            ).update(byte_offset(old(self).width(), x, y) + 3, color.a),
    {
        let color_bytes: ColorBytes = color.get_bytes().unwrap();
        proof {
            lemma_byte_offset_bounds(self.width, self.height, x, y);
            assert(4 * self.width <= 4 * self.width * self.height) by (nonlinear_arith)
                requires
                    y < self.height,
            ;
            assert(y * (4 * self.width) <= 4 * self.width * self.height) by (nonlinear_arith)
                requires
                    y < self.height,
            ;
        }
        let size: u32 = COLOR_BYTE_SIZE as u32;
        let row_size: u32 = self.width * size;
        let index: usize = (x * size + y * row_size) as usize;
        self.pixels[index] = color_bytes.r;
        self.pixels[index + 1] = color_bytes.g;
        self.pixels[index + 2] = color_bytes.b;
        self.pixels[index + 3] = color_bytes.a;
        proof {
            assert forall|i: u32, j: u32|
                i < old(self).width() && j < old(self).height() && (i != x || j != y) implies (
            #[trigger] self.pixel(i, j)) == old(self).pixel(i, j) by {
                lemma_byte_offset_bounds(self.width, self.height, i, j);
                lemma_byte_offsets_apart(self.width, x, y, i, j);
            }
        }
    }

    fn get_width(&self) -> (width: u32) {
        self.width
    }

    fn get_height(&self) -> (height: u32) {
        self.height
    }
}

/// Two surfaces of one size that agree pixel by pixel hold the same bytes.
pub proof fn lemma_same_pixels_same_bytes(first: PixelSurface, second: PixelSurface)
    requires
        first.well_formed(),
        second.well_formed(),
        first.width() == second.width(),
        first.height() == second.height(),
        forall|x: u32, y: u32|
            x < first.width() && y < first.height() ==> (#[trigger] first.pixel(x, y))
                == second.pixel(x, y),
    ensures
        first@ == second@,
{
    let width = first.width();
    let height = first.height();
    assert(first@.len() == second@.len());
    assert forall|k: int| 0 <= k < first@.len() implies first@[k] == second@[k] by {
        let p = k / 4;
        assert(p < width * height && width > 0) by (nonlinear_arith)
            requires
                0 <= k < 4 * width * height,
                p == k / 4,
                0 <= width,
        ;
        let y = p / (width as int);
        let x = p % (width as int);
        assert(0 <= y < height && 0 <= x < width && p == y * width + x) by (nonlinear_arith)
            requires
                0 <= p < width * height,
                width > 0,
                y == p / (width as int),
                x == p % (width as int),
        ;
        assert(byte_offset(width, x as u32, y as u32) == 4 * p);
        assert(first.pixel(x as u32, y as u32) == second.pixel(x as u32, y as u32));
    }
    assert(first@ =~= second@);
}

} // verus!
