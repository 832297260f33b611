//! Windows onto long collections: which rows are visible, how the window
//! follows a selection, and the scrollbar that shows where it is.

use vstd::prelude::*;
use crate::geometry::{Rect, Size, sat_sub};
use crate::style::{Color, Style};
use crate::surface::{Surface, paint_cell, lemma_recolor};
use crate::view::RenderCtx;

verus! {

/// `len` visible rows of `total`, starting at `start`.
#[derive(Clone, Copy, Debug, PartialEq, Eq, Structural)]
pub struct VirtualWindow {
    pub total: usize,
    pub len: usize,
    pub start: usize,
}

impl VirtualWindow {
    /// A window of `len` rows of `total`, from `start`.
    pub fn new(total: usize, len: usize, start: usize) -> (w: VirtualWindow)
        ensures
            w == (VirtualWindow { total, len, start }),
    {
        VirtualWindow { total, len, start }
    }

    /// Rows in the collection.
    pub fn total(&self) -> (r: usize)
        ensures
            r == self.total,
    {
        self.total
    }

    /// Visible rows.
    pub fn len(&self) -> (r: usize)
        ensures
            r == self.len,
    {
        self.len
    }

    /// First visible row.
    pub fn start(&self) -> (r: usize)
        ensures
            r == self.start,
    {
        self.start
    }

    /// One past the last visible row (saturating).
    pub fn end(&self) -> (r: usize)
        ensures
            r == if self.start + self.len > usize::MAX { usize::MAX as int } else { self.start + self.len },
    {
        self.start.saturating_add(self.len)
    }

    /// The visible rows as a range.
    pub fn range(&self) -> (r: std::ops::Range<usize>)
        ensures
            r.start == self.start,
            r.end == if self.start + self.len > usize::MAX { usize::MAX as int } else { self.start + self.len },
    {
        self.start..self.end()
    }

    /// Whether some rows are hidden.
    pub fn overflows(&self) -> (b: bool)
        ensures
            b == (self.len < self.total),
    {
        self.len < self.total
    }

    /// The largest start that still fills the window.
    pub fn max_start(&self) -> (r: usize)
        ensures
            r == sat_sub(self.total as int, self.len as int),
    {
        self.total.saturating_sub(self.len)
    }

    /// The largest in-range start for `content` rows shown `viewport` at a
    /// time (`content - viewport`, floored at zero).
    pub fn max_start_for(content: usize, viewport: usize) -> (r: usize)
        ensures
            r == sat_sub(content as int, viewport as int),
    {
        content.saturating_sub(viewport)
    }

    /// Keep a window of up to `visible` rows of `total` where it was (`offset`,
    /// clamped into range), scrolling only as far as needed to show `anchor`.
    pub fn keeping(total: usize, visible: usize, offset: usize, anchor: Option<usize>) -> (w: VirtualWindow)
        ensures
            w == spec_keeping(total as int, visible as int, offset as int, anchor),
    {
        let len = if visible <= total { visible } else { total };
        let max_start = total - len;
        let mut start = if offset <= max_start { offset } else { max_start };
        if len > 0 {
            if let Some(a) = anchor {
                if a < total {
                    if a < start {
                        start = a;
                    } else if a >= start + len {
                        start = a + 1 - len;
                    }
                }
            }
        }
        VirtualWindow { total, len, start }
    }
}

pub open spec fn spec_keeping(total: int, visible: int, offset: int, anchor: Option<usize>) -> VirtualWindow {
    let len = if visible <= total { visible } else { total };
    let max_start = total - len;
    let clamped = if offset <= max_start { offset } else { max_start };
    let start = match anchor {
        Some(a) => if len > 0 && a < total {
            if a < clamped { a as int } else if a >= clamped + len { a + 1 - len } else { clamped }
        } else {
            clamped
        },
        None => clamped,
    };
    VirtualWindow { total: total as usize, len: len as usize, start: start as usize }
}

/// The window `spec_keeping` makes shows its anchor, stays in range, and is no
/// longer than asked.
pub proof fn lemma_keeping_shows_anchor(total: int, visible: int, offset: int, a: usize)
    requires
        0 <= total <= usize::MAX,
        0 <= visible,
        0 <= offset,
        0 < visible,
        a < total,
    ensures
        ({
            let w = spec_keeping(total, visible, offset, Some(a));
            &&& w.start <= a < w.start + w.len
            &&& w.start + w.len <= total
        }),
{
}

/// How a list positions its window around the selection when it resolves the
/// window itself.
#[derive(Clone, Copy, Debug, PartialEq, Eq, Structural)]
pub enum SelectionAnchor {
    /// Keep the selection in the middle of the window.
    Center,
    /// Keep the selection on the window's bottom edge.
    Edge,
}

pub open spec fn spec_anchor_window(anchor: SelectionAnchor, total: int, visible: int, selected: Option<usize>) -> VirtualWindow {
    let len = if visible <= total { visible } else { total };
    let max_start = total - len;
    let wanted = match selected {
        Some(s) => match anchor {
            SelectionAnchor::Center => sat_sub(s as int, len / 2),
            SelectionAnchor::Edge => sat_sub(s + 1, len),
        },
        None => 0,
    };
    VirtualWindow {
        total: total as usize,
        len: len as usize,
        start: (if wanted <= max_start { wanted } else { max_start }) as usize,
    }
}

impl SelectionAnchor {
    /// The window of up to `visible` of `total` rows that puts `selected`
    /// where this anchor says (the top when nothing is selected).
    pub fn window(self, total: usize, visible: usize, selected: Option<usize>) -> (w: VirtualWindow)
        ensures
            w == spec_anchor_window(self, total as int, visible as int, selected),
    {
        let len = if visible <= total { visible } else { total };
        let max_start = total - len;
        let wanted = match selected {
            Some(s) => match self {
                SelectionAnchor::Center => s.saturating_sub(len / 2),
                SelectionAnchor::Edge => s.saturating_add(1).saturating_sub(len),
            },
            None => 0,
        };
        VirtualWindow { total, len, start: if wanted <= max_start { wanted } else { max_start } }
    }
}

impl Default for SelectionAnchor {
    fn default() -> (a: SelectionAnchor)
        ensures
            a == SelectionAnchor::Center,
    {
        SelectionAnchor::Center
    }
}

/// Thumb length and start on a track of `height` cells for `window`.
pub open spec fn thumb(window: VirtualWindow, height: int) -> (int, int) {
    if window.total == 0 || height == 0 {
        (0, 0)
    } else {
        let raw_len = height * window.len / (window.total as int);
        let len = if raw_len < 1 { 1 } else if raw_len > height { height } else { raw_len };
        let raw_start = height * window.start / (window.total as int);
        let start = if raw_start > height - len { height - len } else { raw_start };
        (len, start)
    }
}

/// A vertical scrollbar: a `█` thumb over a `│` track.
pub struct Scrollbar {
    pub window: VirtualWindow,
}

impl Scrollbar {
    /// A vertical scrollbar for `window`.
    pub fn vertical(window: VirtualWindow) -> (s: Scrollbar)
        ensures
            s.window == window,
    {
        Scrollbar { window }
    }

    /// Thumb length and start for a track of `height` cells.
    pub fn thumb(&self, height: u16) -> (r: (u16, u16))
        ensures
            r.0 as int == thumb(self.window, height as int).0,
            r.1 as int == thumb(self.window, height as int).1,
    {
        if self.window.total == 0 || height == 0 {
            return (0, 0);
        }
        let h = height as u128;
        let total = self.window.total as u128;
        proof {
            assert(h * (self.window.len as u128) <= 65535 * 18446744073709551615) by (nonlinear_arith)
                requires
                    h <= 65535,
                    self.window.len <= 18446744073709551615,
            ;
            assert(h * (self.window.start as u128) <= 65535 * 18446744073709551615) by (nonlinear_arith)
                requires
                    h <= 65535,
                    self.window.start <= 18446744073709551615,
            ;
        }
        let raw_len = h * (self.window.len as u128) / total;
        let len: u16 = if raw_len < 1 { 1 } else if raw_len > h { height } else { raw_len as u16 };
        let raw_start = h * (self.window.start as u128) / total;
        let start: u16 = if raw_start > (height - len) as u128 { height - len } else { raw_start as u16 };
        (len, start)
    }
}

/// A scrollbar's cell at `(x, y)` of `area`, thumb `th` (length, start):
/// column `area.x` only, one row per track cell; where rows run past the
/// last screen row they land on it, the last one showing.
pub open spec fn scrollbar_cell(area: Rect, th: (int, int), muted: Color, dim: Color, x: int, y: int) -> Option<(char, Style)> {
    bar_rows(area, th, muted, dim, area.height as int, x, y)
}

/// The cells of the first `rows` track rows.
pub open spec fn bar_rows(area: Rect, th: (int, int), muted: Color, dim: Color, rows: int, x: int, y: int) -> Option<(char, Style)> {
    if area.width == 0 || x != area.x || y < area.y || y >= area.y + rows || y > 65535 {
        None
    } else {
        let r = if y == 65535 { rows - 1 } else { y - area.y };
        if th.1 <= r && r - th.1 < th.0 {
            Some(('█', Style { fg: Some(muted), ..Style::spec_empty() }))
        } else {
            Some(('│', Style { fg: Some(dim), ..Style::spec_empty() }))
        }
    }
}

impl crate::view::View for Scrollbar {
    /// One column, as tall as offered.
    fn measure(&self, available: Size, ctx: &RenderCtx) -> (s: Size)
        ensures
            s.width == 1 && s.height == available.height,
    {
        Size::new(1, available.height)
    }

    /// Column `area.x`, row by row: the thumb `█` in the muted color over
    /// the rows [`thumb`] gives, the track `│` in the dim color elsewhere.
    fn render(&self, area: Rect, surface: &mut Surface, ctx: &RenderCtx)
        ensures
            forall|x: int, y: int|
                old(surface).buffer.area.holds(x, y) ==> #[trigger] final(surface).buffer.at(x, y) == paint_cell(
                    old(surface).buffer.at(x, y),
                    scrollbar_cell(area, thumb(self.window, area.height as int), ctx.theme.muted, ctx.theme.dim, x, y),
                    old(surface).clip,
                    x,
                    y,
                ),
    {
        let ghost base = *surface;
        if area.is_empty() {
            return;
        }
        let (len, start) = self.thumb(area.height);
        let ghost th = thumb(self.window, area.height as int);
        let ghost muted = ctx.theme.muted;
        let ghost dim = ctx.theme.dim;
        let mut row: u16 = 0;
        while row < area.height
            invariant
                surface.wf(),
                surface.buffer.area == base.buffer.area,
                surface.clip == base.clip,
                row <= area.height,
                area.width > 0,
                len == th.0,
                start == th.1,
                muted == ctx.theme.muted,
                dim == ctx.theme.dim,
                forall|x: int, y: int|
                    base.buffer.area.holds(x, y) ==> #[trigger] surface.buffer.at(x, y) == paint_cell(
                        base.buffer.at(x, y),
                        bar_rows(area, th, muted, dim, row as int, x, y),
                        base.clip,
                        x,
                        y,
                    ),
            decreases area.height - row,
        {
            let y = area.y.saturating_add(row);
            let ghost s0 = *surface;
            let ghost thumb_row = row >= start && row - start < len;
            if row >= start && row - start < len {
                surface.set(area.x, y, '█', Style::new().fg(ctx.theme.muted));
            } else {
                surface.set(area.x, y, '│', Style::new().fg(ctx.theme.dim));
            }
            proof {
                let cell = if thumb_row {
                    ('█', Style { fg: Some(muted), ..Style::spec_empty() })
                } else {
                    ('│', Style { fg: Some(dim), ..Style::spec_empty() })
                };
                assert forall|x: int, y2: int| base.buffer.area.holds(x, y2) implies #[trigger] surface.buffer.at(x, y2)
                    == paint_cell(base.buffer.at(x, y2), bar_rows(area, th, muted, dim, row + 1, x, y2), base.clip, x, y2) by {
                    assert(s0.buffer.at(x, y2) == paint_cell(
                        base.buffer.at(x, y2),
                        bar_rows(area, th, muted, dim, row as int, x, y2),
                        base.clip,
                        x,
                        y2,
                    ));
                    if x == area.x && y2 == y && base.clip.holds(x, y2) {
                        match bar_rows(area, th, muted, dim, row as int, x, y2) {
                            Some(c0) => {
                                lemma_recolor(base.buffer.at(x, y2), c0.0, c0.1, cell.0, cell.1);
                            },
                            None => {},
                        }
                    }
                }
            }
            row = row + 1;
        }
        proof {
            assert forall|x: int, y: int| base.buffer.area.holds(x, y) implies bar_rows(
                area,
                th,
                muted,
                dim,
                area.height as int,
                x,
                y,
            ) == scrollbar_cell(area, th, muted, dim, x, y) by {}
        }
    }
}

} // verus!
