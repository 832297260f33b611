//! Focus scoping: render a subtree with an explicit focus flag, so each pane
//! of a frame can be marked focused or not on its own.

use vstd::prelude::*;
use crate::geometry::{Rect, Size};
use crate::surface::Surface;
use crate::view::RenderCtx;

verus! {

/// A layout-transparent wrapper that measures and draws its child with the
/// context's focus flag replaced.
pub struct FocusScope<V: crate::view::View> {
    pub focused: bool,
    pub child: V,
}

impl<V: crate::view::View> FocusScope<V> {
    /// Render `child` with the given `focused` flag.
    pub fn new(focused: bool, child: V) -> (s: FocusScope<V>)
        ensures
            s.focused == focused,
            s.child == child,
    {
        FocusScope { focused, child }
    }

    /// Render `child` as focused.
    pub fn focused(child: V) -> (s: FocusScope<V>)
        ensures
            s.focused,
            s.child == child,
    {
        FocusScope::new(true, child)
    }

    /// Render `child` as unfocused.
    pub fn unfocused(child: V) -> (s: FocusScope<V>)
        ensures
            !s.focused,
            s.child == child,
    {
        FocusScope::new(false, child)
    }
}

impl<V: crate::view::View> crate::view::View for FocusScope<V> {
    /// What the child measures with the focus flag replaced.
    fn measure(&self, available: Size, ctx: &RenderCtx) -> (s: Size)
        ensures
            call_ensures(V::measure, (&self.child, available, &(RenderCtx { focused: self.focused, ..*ctx })), s),
    {
        self.child.measure(available, &ctx.with_focus(self.focused))
    }

    /// What the child draws with the focus flag replaced.
    fn render(&self, area: Rect, surface: &mut Surface, ctx: &RenderCtx)
        ensures
            exists|r: &mut Surface|
                #![trigger call_ensures(V::render, (&self.child, area, r, &(RenderCtx { focused: self.focused, ..*ctx })), ())]
                mut_ref_current(r) == *old(surface) && mut_ref_future(r) == *final(surface) && call_ensures(
                    V::render,
                    (&self.child, area, r, &(RenderCtx { focused: self.focused, ..*ctx })),
                    (),
                ),
    {
        self.child.render(area, surface, &ctx.with_focus(self.focused));
    }
}

} // verus!
