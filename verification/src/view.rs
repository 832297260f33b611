//! The [`View`] trait every component implements, and the render context.

use vstd::prelude::*;
use crate::geometry::{Rect, Size};
use crate::style::{StyleSheet, Theme};
use crate::surface::Surface;

verus! {

/// What a view reads while rendering: the active theme, the stylesheet
/// and whether the subtree has focus.
#[derive(Clone, Copy, Debug)]
pub struct RenderCtx {
    pub theme: Theme,
    /// The semantic styles, panels' included.
    pub sheet: StyleSheet,
    /// Whether the subtree being drawn has input focus.
    pub focused: bool,
}

impl RenderCtx {
    /// A context over `theme` with the stylesheet it implies, unfocused.
    pub fn new(theme: &Theme) -> (c: RenderCtx)
        ensures
            c.theme == *theme,
            c.sheet == StyleSheet::spec_from_theme(*theme),
            !c.focused,
    {
        RenderCtx { theme: *theme, sheet: StyleSheet::from_theme(theme), focused: false }
    }

    /// The same context with the focus flag set to `focused`.
    pub fn with_focus(self, focused: bool) -> (c: RenderCtx)
        ensures
            c == (RenderCtx { focused, ..self }),
    {
        RenderCtx { focused, ..self }
    }

    /// The same context drawing with `sheet`.
    pub fn with_sheet(self, sheet: StyleSheet) -> (c: RenderCtx)
        ensures
            c == (RenderCtx { sheet, ..self }),
    {
        RenderCtx { sheet, ..self }
    }
}

/// A component that can size itself and draw into a rectangle.
pub trait View {
    /// The size this view wants within `available`.
    fn measure(&self, available: Size, ctx: &RenderCtx) -> Size;

    /// Draw into `area` of the surface.
    fn render(&self, area: Rect, surface: &mut Surface, ctx: &RenderCtx)
        requires
            old(surface).wf(),
        ensures
            final(surface).wf(),
            final(surface).buffer.area == old(surface).buffer.area,
            final(surface).clip == old(surface).clip,
    ;
}

} // verus!
