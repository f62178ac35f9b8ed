//! What the renderer draws on.
use vstd::prelude::*;
use crate::properties::Color;

verus! {

/// A rectangle of pixels that can be written one at a time. Pixel `(x, y)` is
/// in column `x` of row `y`.
///
/// A surface has three operations: `set_pixel`, `get_width` and `get_height`.
/// The other four items say, for the proofs, what a surface holds; a surface
/// that is to be proved correct states them for its own storage, as
/// [`PixelSurface`](crate::state::PixelSurface) does.
pub trait Surface {
    /// What every method keeps true of a surface.
    open spec fn well_formed(&self) -> bool {
        true
    }

    /// The number of columns.
    open spec fn width(&self) -> u32 {
        arbitrary()
    }

    /// The number of rows.
    open spec fn height(&self) -> u32 {
        arbitrary()
    }

    /// The color of one pixel.
    open spec fn pixel(&self, x: u32, y: u32) -> Color<u8> {
        arbitrary()
    }

    /// Gives one pixel a color and leaves all others as they are.
    fn set_pixel(&mut self, x: u32, y: u32, color: &Color<u8>)
        requires
            old(self).well_formed(),
            x < old(self).width(),
            y < old(self).height(),
        ensures
            final(self).well_formed(),
            final(self).width() == old(self).width(),
            final(self).height() == old(self).height(),
            final(self).pixel(x, y) == *color,
            forall|i: u32, j: u32|
                i < old(self).width() && j < old(self).height() && (i != x || j != y) ==> (
                #[trigger] final(self).pixel(i, j)) == old(self).pixel(i, j),
    ;

    fn get_width(&self) -> (width: u32)
        ensures
            width == self.width(),
    ;

    fn get_height(&self) -> (height: u32)
        ensures
            height == self.height(),
    ;
}

} // verus!
