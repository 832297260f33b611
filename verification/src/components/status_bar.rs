//! A one-row status bar: left- and right-anchored segments over a background.

use vstd::prelude::*;
use crate::buffer::{CellView, restyled};
use crate::geometry::{Rect, Size, sat_sub};
use crate::style::{Style, Theme};
use crate::surface::{Surface, runs_col, write_runs};
use crate::text::{Span, spans_cols, spans_width};
use crate::view::RenderCtx;
use crate::width::cap16;

verus! {

/// A status bar with left- and right-anchored span groups.
pub struct StatusBar {
    pub left: Vec<Span>,
    pub right: Vec<Span>,
    pub background: Option<Style>,
}

impl StatusBar {
    /// No segments, theme surface background.
    pub fn new() -> (b: StatusBar)
        ensures
            b.left@.len() == 0,
            b.right@.len() == 0,
            b.background.is_none(),
    {
        StatusBar { left: Vec::new(), right: Vec::new(), background: None }
    }

    /// Set the left-anchored group.
    pub fn left(self, spans: Vec<Span>) -> (b: StatusBar)
        ensures
            b.left == spans,
            b.right == self.right,
            b.background == self.background,
    {
        StatusBar { left: spans, ..self }
    }

    /// Set the right-anchored group.
    pub fn right(self, spans: Vec<Span>) -> (b: StatusBar)
        ensures
            b.left == self.left,
            b.right == spans,
            b.background == self.background,
    {
        StatusBar { right: spans, ..self }
    }

    /// Override the row background.
    pub fn background(self, style: Style) -> (b: StatusBar)
        ensures
            b.left == self.left,
            b.right == self.right,
            b.background == Some(style),
    {
        StatusBar { background: Some(style), ..self }
    }
}

impl Default for StatusBar {
    fn default() -> (b: StatusBar)
        ensures
            b.left@.len() == 0,
            b.right@.len() == 0,
            b.background.is_none(),
    {
        StatusBar::new()
    }
}

/// The row's base style: the bar's own background, else the theme surface.
pub open spec fn bar_background(b: StatusBar, theme: Theme) -> Style {
    match b.background {
        Some(s) => s,
        None => Style { bg: Some(theme.surface), ..Style::spec_empty() },
    }
}

/// A span group as runs, each span's style patched over the background.
pub open spec fn bar_runs(spans: Seq<Span>, bg: Style) -> Seq<(Seq<char>, Style)> {
    spans.map_values(|s: Span| (s.content@, s.style.spec_patch(bg)))
}

/// What the bar draws on the first row of a non-empty `area`: the row (within
/// the clip) restyled to the background, the left group from the left edge,
/// then the right group ending at the right edge when it starts past where
/// the left group stopped; both cut at the right edge.
pub open spec fn status_cells(
    barea: Rect,
    cells: Seq<CellView>,
    clip: Rect,
    area: Rect,
    b: StatusBar,
    theme: Theme,
) -> Seq<CellView> {
    let bg = bar_background(b, theme);
    let row = Rect { x: area.x, y: area.y, width: area.width, height: 1 };
    let filled = restyled(barea, cells, row.spec_intersection(clip).spec_intersection(barea), bg);
    let left = bar_runs(b.left@, bg);
    let c1 = write_runs(barea, filled, clip, left, area.x as int, area.y as int, area.spec_right(), 0);
    let x1 = runs_col(barea, filled, clip, left, area.x as int, area.y as int, area.spec_right(), 0);
    let rx = sat_sub(area.spec_right(), cap16(spans_cols(b.right@) as int));
    if rx > x1 {
        write_runs(barea, c1, clip, bar_runs(b.right@, bg), rx, area.y as int, area.spec_right(), 0)
    } else {
        c1
    }
}

impl crate::view::View for StatusBar {
    /// The full width offered, one row.
    fn measure(&self, available: Size, ctx: &RenderCtx) -> (s: Size)
        ensures
            s.width == available.width && s.height == 1,
    {
        Size::new(available.width, 1)
    }

    fn render(&self, area: Rect, surface: &mut Surface, ctx: &RenderCtx)
        ensures
            final(surface).buffer.cells() == if area.height == 0 {
                old(surface).buffer.cells()
            } else {
                status_cells(
                    old(surface).buffer.area,
                    old(surface).buffer.cells(),
                    old(surface).clip,
                    area,
                    *self,
                    ctx.theme,
                )
            },
    {
        if area.height == 0 {
            return;
        }
        let bg = match self.background {
            Some(b) => b,
            None => Style::new().bg(ctx.theme.surface),
        };
        let row = Rect::new(area.x, area.y, area.width, 1);
        let prev = surface.narrow(row);
        surface.fill(bg);
        surface.restore_clip(prev);
        let ghost left = bar_runs(self.left@, bg);
        let ghost start_cells = surface.buffer.cells();
        let ghost c1 = write_runs(
            surface.buffer.area,
            start_cells,
            surface.clip,
            left,
            area.x as int,
            area.y as int,
            area.spec_right(),
            0,
        );
        let ghost x1 = runs_col(
            surface.buffer.area,
            start_cells,
            surface.clip,
            left,
            area.x as int,
            area.y as int,
            area.spec_right(),
            0,
        );
        let mut x = area.x;
        let mut k: usize = 0;
        while k < self.left.len()
            invariant_except_break
                surface.wf(),
                surface.buffer.area == old(surface).buffer.area,
                surface.clip == old(surface).clip,
                k <= self.left@.len(),
                left == bar_runs(self.left@, bg),
                write_runs(
                    surface.buffer.area,
                    surface.buffer.cells(),
                    surface.clip,
                    left,
                    x as int,
                    area.y as int,
                    area.spec_right(),
                    k as int,
                ) == c1,
                runs_col(
                    surface.buffer.area,
                    surface.buffer.cells(),
                    surface.clip,
                    left,
                    x as int,
                    area.y as int,
                    area.spec_right(),
                    k as int,
                ) == x1,
            ensures
                surface.wf(),
                surface.buffer.area == old(surface).buffer.area,
                surface.clip == old(surface).clip,
                surface.buffer.cells() == c1,
                x == x1,
            decreases self.left@.len() - k,
        {
            if x >= area.right() {
                break;
            }
            let span = &self.left[k];
            proof {
                assert(left[k as int] == (span.content@, span.style.spec_patch(bg)));
            }
            x = surface.set_string(x, area.y, span.content.as_str(), span.style.patch(bg));
            k = k + 1;
        }
        let right_w = spans_width(self.right.as_slice());
        let mut rx = area.right().saturating_sub(right_w);
        if rx > x {
            let ghost right = bar_runs(self.right@, bg);
            let ghost c2 = write_runs(
                surface.buffer.area,
                surface.buffer.cells(),
                surface.clip,
                right,
                rx as int,
                area.y as int,
                area.spec_right(),
                0,
            );
            let mut k: usize = 0;
            while k < self.right.len()
                invariant_except_break
                    surface.wf(),
                    surface.buffer.area == old(surface).buffer.area,
                    surface.clip == old(surface).clip,
                    k <= self.right@.len(),
                    right == bar_runs(self.right@, bg),
                    write_runs(
                        surface.buffer.area,
                        surface.buffer.cells(),
                        surface.clip,
                        right,
                        rx as int,
                        area.y as int,
                        area.spec_right(),
                        k as int,
                    ) == c2,
                ensures
                    surface.wf(),
                    surface.buffer.area == old(surface).buffer.area,
                    surface.clip == old(surface).clip,
                    surface.buffer.cells() == c2,
                decreases self.right@.len() - k,
            {
                if rx >= area.right() {
                    break;
                }
                let span = &self.right[k];
                proof {
                    assert(right[k as int] == (span.content@, span.style.spec_patch(bg)));
                }
                rx = surface.set_string(rx, area.y, span.content.as_str(), span.style.patch(bg));
                k = k + 1;
            }
        }
    }
}

} // verus!
