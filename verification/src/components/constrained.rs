//! Intrinsic min/max sizing for a child view.

use vstd::prelude::*;
use crate::geometry::{Rect, Size, max, min};
use crate::surface::Surface;
use crate::view::RenderCtx;

verus! {

/// A child whose measured size is clamped between a minimum and a maximum
/// (and to what is available); rendering is the child's own.
pub struct Constrained<V: crate::view::View> {
    pub child: V,
    pub min: Size,
    pub max: Size,
}

impl<V: crate::view::View> Constrained<V> {
    /// Wrap `child` with no effective bounds.
    pub fn new(child: V) -> (c: Constrained<V>)
        ensures
            c.child == child,
            c.min == (Size { width: 0, height: 0 }),
            c.max == (Size { width: u16::MAX, height: u16::MAX }),
    {
        Constrained { child, min: Size::new(0, 0), max: Size::new(u16::MAX, u16::MAX) }
    }

    /// The minimum intrinsic width and height.
    pub fn min_size(self, width: u16, height: u16) -> (c: Constrained<V>)
        ensures
            c.min == (Size { width, height }),
            c.child == self.child && c.max == self.max,
    {
        Constrained { min: Size::new(width, height), ..self }
    }

    /// The maximum intrinsic width and height.
    pub fn max_size(self, width: u16, height: u16) -> (c: Constrained<V>)
        ensures
            c.max == (Size { width, height }),
            c.child == self.child && c.min == self.min,
    {
        Constrained { max: Size::new(width, height), ..self }
    }
}

/// `measured` raised to `lo`, then lowered to `hi` and to `available`.
pub open spec fn clamp_dim(measured: int, lo: int, hi: int, available: int) -> int {
    min(min(max(measured, lo), hi), available)
}

fn clamp_u16(measured: u16, lo: u16, hi: u16, available: u16) -> (r: u16)
    ensures
        r == clamp_dim(measured as int, lo as int, hi as int, available as int),
{
    let raised = if measured > lo { measured } else { lo };
    let capped = if raised < hi { raised } else { hi };
    if capped < available { capped } else { available }
}

impl<V: crate::view::View> crate::view::View for Constrained<V> {
    /// The child's measurement, clamped per axis.
    fn measure(&self, available: Size, ctx: &RenderCtx) -> (s: Size)
        ensures
            exists|m: Size|
                #![trigger clamp_dim(m.width as int, self.min.width as int, self.max.width as int, available.width as int)]
                call_ensures(V::measure, (&self.child, available, ctx), m)
                    && s.width == clamp_dim(m.width as int, self.min.width as int, self.max.width as int, available.width as int)
                    && s.height == clamp_dim(
                    m.height as int,
                    self.min.height as int,
                    self.max.height as int,
                    available.height as int,
                ),
    {
        let measured = self.child.measure(available, ctx);
        Size::new(
            clamp_u16(measured.width, self.min.width, self.max.width, available.width),
            clamp_u16(measured.height, self.min.height, self.max.height, available.height),
        )
    }

    fn render(&self, area: Rect, surface: &mut Surface, ctx: &RenderCtx) {
        self.child.render(area, surface, ctx);
    }
}

} // verus!
