//! Width-driven choice between a compact and a wide view.

use vstd::prelude::*;
use crate::geometry::{Rect, Size};
use crate::surface::Surface;
use crate::view::RenderCtx;

verus! {

/// The compact view below a column breakpoint, the wide one at or above it.
pub struct Responsive<V: crate::view::View> {
    pub breakpoint: u16,
    pub compact: V,
    pub wide: V,
}

impl<V: crate::view::View> Responsive<V> {
    /// Use `compact` below `breakpoint` columns and `wide` otherwise.
    pub fn new(breakpoint: u16, compact: V, wide: V) -> (r: Responsive<V>)
        ensures
            r.breakpoint == breakpoint,
            r.compact == compact,
            r.wide == wide,
    {
        Responsive { breakpoint, compact, wide }
    }

    /// The view for `width` columns.
    pub open spec fn chosen(&self, width: u16) -> V {
        if width < self.breakpoint { self.compact } else { self.wide }
    }

    /// The view used at `width` columns.
    pub fn select(&self, width: u16) -> (v: &V)
        ensures
            *v == if width < self.breakpoint { self.compact } else { self.wide },
    {
        if width < self.breakpoint {
            &self.compact
        } else {
            &self.wide
        }
    }
}

impl<V: crate::view::View> crate::view::View for Responsive<V> {
    /// What the view chosen for the available width measures.
    fn measure(&self, available: Size, ctx: &RenderCtx) -> (s: Size)
        ensures
            call_ensures(
                V::measure,
                (if available.width < self.breakpoint { &self.compact } else { &self.wide }, available, ctx),
                s,
            ),
    {
        self.select(available.width).measure(available, ctx)
    }

    /// What the view chosen for the area's width draws.
    fn render(&self, area: Rect, surface: &mut Surface, ctx: &RenderCtx)
        ensures
            exists|r: &mut Surface|
                #![trigger call_ensures(
                    V::render,
                    (&self.chosen(area.width), area, r, ctx),
                    (),
                )]
                mut_ref_current(r) == *old(surface) && mut_ref_future(r) == *final(surface) && call_ensures(
                    V::render,
                    (&self.chosen(area.width), area, r, ctx),
                    (),
                ),
    {
        let view = self.select(area.width);
        proof {
            assert(*view == self.chosen(area.width));
        }
        view.render(area, surface, ctx);
    }
}

} // verus!
