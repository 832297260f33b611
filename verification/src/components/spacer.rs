//! An empty filler view that paints nothing.

use vstd::prelude::*;
use crate::geometry::{Rect, Size};
use crate::surface::Surface;
use crate::view::RenderCtx;

verus! {

/// Empty, flexible filler: measures to nothing and draws nothing.
pub struct Spacer;

impl crate::view::View for Spacer {
    fn measure(&self, available: Size, ctx: &RenderCtx) -> (s: Size)
        ensures
            s.width == 0 && s.height == 0,
    {
        Size::zero()
    }

    fn render(&self, area: Rect, surface: &mut Surface, ctx: &RenderCtx)
        ensures
            *final(surface) == *old(surface),
    {
    }
}

} // verus!
