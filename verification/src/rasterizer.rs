//! Drawing that needs no scene.
use vstd::prelude::*;
use crate::properties::background;
use crate::properties::bg_color;
use crate::surface::Surface;

verus! {

/// Gives every pixel of the surface the background color.
pub fn clear_screen<S: Surface>(surface: &mut S)
    requires
        old(surface).well_formed(),
    ensures
        final(surface).well_formed(),
        final(surface).width() == old(surface).width(),
        final(surface).height() == old(surface).height(),
        forall|x: u32, y: u32|
            x < old(surface).width() && y < old(surface).height()
                ==> (#[trigger] final(surface).pixel(x, y)) == background(),
{
    let width = surface.get_width();
    let height = surface.get_height();
    let color = bg_color();
    let mut y: u32 = 0;
    while y < height
        invariant
            surface.well_formed(),
            surface.width() == width,
            surface.height() == height,
            y <= height,
            color == background(),
            forall|i: u32, j: u32| i < width && j < y ==> (#[trigger] surface.pixel(i, j)) == color,
        decreases height - y,
    {
        let mut x: u32 = 0;
        while x < width
            invariant
                surface.well_formed(),
                surface.width() == width,
                surface.height() == height,
                y < height,
                x <= width,
                forall|i: u32, j: u32|
                    i < width && j < y ==> (#[trigger] surface.pixel(i, j)) == color,
                forall|i: u32| i < x ==> (#[trigger] surface.pixel(i, y)) == color,
            decreases width - x,
        {
            surface.set_pixel(x, y, &color);
            x += 1;
        }
        y += 1;
    }
}

} // verus!
