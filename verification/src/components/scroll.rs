//! A scroll viewport: persisted vertical and horizontal offsets, wheel and
//! paging navigation, and the windowed view with its scrollbar.

use vstd::prelude::*;
use crate::event::{Event, InputOutcome, Key, KeyCode, Mouse, MouseKind};
use crate::geometry::{Rect, Size, sat_add, sat_sub};
use crate::buffer::{CellView, flat_index};
use crate::chars::sat_usize;
use crate::graphemes::{grapheme_clusters, views};
use crate::graphemes::graphemes;
use crate::surface::{Surface, clipped_write, paint_cell};
use crate::text::{Alignment, Line, Span};
use crate::view::RenderCtx;
use crate::width::{cluster_cols, grapheme_cols};
use crate::style::{Style, Theme};
use super::text::{StyledCell, lines_view, line_view, wrap_lines, wrap_lines_spec};
use super::window::{Scrollbar, VirtualWindow, scrollbar_cell, thumb};

verus! {

/// Persisted scroll position of one region.
#[derive(Clone, Copy, Debug)]
pub struct ScrollState {
    pub offset: usize,
    pub x_offset: usize,
    pub stick_to_bottom: bool,
}

pub open spec fn spec_max_offset(content: int, viewport: int) -> int {
    sat_sub(content, viewport)
}

pub open spec fn sat_add_u(a: int, b: int) -> int {
    if a + b > usize::MAX { usize::MAX as int } else { a + b }
}

/// Scrolling up by `lines`: detaches from the bottom.
pub open spec fn spec_scroll_up(s: ScrollState, lines: int) -> (ScrollState, InputOutcome) {
    let changed = s.offset != 0 || s.stick_to_bottom;
    (
        ScrollState { offset: sat_sub(s.offset as int, lines) as usize, stick_to_bottom: false, ..s },
        if changed { InputOutcome::Changed } else { InputOutcome::Consumed },
    )
}

/// Scrolling down by `lines`, clamped to the bottom; reaching the bottom
/// re-arms sticking to it.
pub open spec fn spec_scroll_down(s: ScrollState, lines: int, content: int, viewport: int) -> (ScrollState, InputOutcome) {
    let max = spec_max_offset(content, viewport);
    let changed = s.offset != max || !s.stick_to_bottom;
    let down = sat_add_u(s.offset as int, lines);
    let off = if down <= max { down } else { max };
    (
        ScrollState { offset: off as usize, stick_to_bottom: off >= max, ..s },
        if changed { InputOutcome::Changed } else { InputOutcome::Consumed },
    )
}

/// What an event does to a scroll state.
pub open spec fn spec_scroll_event(s: ScrollState, event: Event, content: int, viewport: int) -> (ScrollState, InputOutcome) {
    let page = if sat_sub(viewport, 1) >= 1 { sat_sub(viewport, 1) } else { 1 };
    match event {
        Event::Mouse(m) => match m.kind {
            MouseKind::ScrollUp => spec_scroll_up(s, 3),
            MouseKind::ScrollDown => spec_scroll_down(s, 3, content, viewport),
            _ => (s, InputOutcome::Ignored),
        },
        Event::Key(k) => if k.spec_plain() {
            match k.code {
                KeyCode::PageUp => spec_scroll_up(s, page),
                KeyCode::PageDown => spec_scroll_down(s, page, content, viewport),
                KeyCode::Home => (
                    ScrollState { offset: 0, stick_to_bottom: false, ..s },
                    if s.offset != 0 || s.stick_to_bottom { InputOutcome::Changed } else { InputOutcome::Consumed },
                ),
                KeyCode::End => {
                    let max = spec_max_offset(content, viewport);
                    (
                        ScrollState { offset: max as usize, stick_to_bottom: true, ..s },
                        if s.offset != max || !s.stick_to_bottom { InputOutcome::Changed } else { InputOutcome::Consumed },
                    )
                },
                _ => (s, InputOutcome::Ignored),
            }
        } else {
            (s, InputOutcome::Ignored)
        },
        _ => (s, InputOutcome::Ignored),
    }
}

/// What the navigation keys do to a scroll position, over `content` rows
/// seen through `viewport` rows, where a page is `viewport - 1` rows (at
/// least one) and the bottom is `content - viewport` (at least zero):
/// Home goes to the top, End to the bottom and sticks there, PageUp moves a
/// page up stopping at the top, PageDown a page down stopping at the bottom
/// and sticking once there. Each is taken, reporting a change exactly when
/// the position or the sticking moved; the horizontal offset is kept.
pub proof fn lemma_scroll_keys(s: ScrollState, key: Key, content: usize, viewport: usize)
    requires
        !key.ctrl && !key.alt && !key.shift,
    ensures
        ({
            let (n, r) = spec_scroll_event(s, Event::Key(key), content as int, viewport as int);
            let page: int = if viewport >= 2 { viewport - 1 } else { 1 };
            let bottom: int = if content >= viewport { content - viewport } else { 0 };
            &&& key.code == KeyCode::Home ==> {
                &&& n.offset == 0 && !n.stick_to_bottom
                &&& (r == InputOutcome::Changed) == (s.offset != 0 || s.stick_to_bottom)
                &&& r != InputOutcome::Ignored
            }
            &&& key.code == KeyCode::End ==> {
                &&& n.offset == bottom && n.stick_to_bottom
                &&& (r == InputOutcome::Changed) == (s.offset != bottom || !s.stick_to_bottom)
                &&& r != InputOutcome::Ignored
            }
            &&& key.code == KeyCode::PageUp ==> {
                &&& n.offset == (if s.offset >= page { s.offset - page } else { 0 }) && !n.stick_to_bottom
                &&& (r == InputOutcome::Changed) == (s.offset != 0 || s.stick_to_bottom)
                &&& r != InputOutcome::Ignored
            }
            &&& key.code == KeyCode::PageDown && s.offset + page <= usize::MAX ==> {
                &&& n.offset == (if s.offset + page <= bottom { s.offset + page } else { bottom })
                &&& n.stick_to_bottom == (n.offset == bottom)
                &&& (r == InputOutcome::Changed) == (s.offset != bottom || !s.stick_to_bottom)
                &&& r != InputOutcome::Ignored
            }
            &&& n.x_offset == s.x_offset
            &&& (key.code != KeyCode::Home && key.code != KeyCode::End && key.code != KeyCode::PageUp
                && key.code != KeyCode::PageDown) ==> n == s && r == InputOutcome::Ignored
        }),
{
}

/// The mouse wheel scrolls three rows: up stopping at the top and letting go
/// of the bottom, down stopping at the bottom and sticking once there; any
/// other mouse action is not taken.
pub proof fn lemma_scroll_wheel(s: ScrollState, m: Mouse, content: usize, viewport: usize)
    requires
        s.offset + 3 <= usize::MAX,
    ensures
        ({
            let (n, r) = spec_scroll_event(s, Event::Mouse(m), content as int, viewport as int);
            let bottom: int = if content >= viewport { content - viewport } else { 0 };
            &&& m.kind == MouseKind::ScrollUp ==> {
                &&& n.offset == (if s.offset >= 3 { s.offset - 3 } else { 0 }) && !n.stick_to_bottom
                &&& r != InputOutcome::Ignored
            }
            &&& m.kind == MouseKind::ScrollDown ==> {
                &&& n.offset == (if s.offset + 3 <= bottom { s.offset + 3 } else { bottom })
                &&& n.stick_to_bottom == (n.offset == bottom)
                &&& r != InputOutcome::Ignored
            }
            &&& n.x_offset == s.x_offset
            &&& (m.kind != MouseKind::ScrollUp && m.kind != MouseKind::ScrollDown) ==> n == s && r
                == InputOutcome::Ignored
        }),
{
}

impl ScrollState {
    /// At the top, sticking to the bottom.
    pub fn new() -> (s: ScrollState)
        ensures
            s.offset == 0,
            s.x_offset == 0,
            s.stick_to_bottom,
    {
        ScrollState { offset: 0, x_offset: 0, stick_to_bottom: true }
    }

    /// Top visible content row.
    pub fn offset(&self) -> (r: usize)
        ensures
            r == self.offset,
    {
        self.offset
    }

    /// Put the top visible row at `offset`, detaching from the bottom.
    pub fn set_offset(&mut self, offset: usize)
        ensures
            *final(self) == (ScrollState { offset, stick_to_bottom: false, ..*old(self) }),
    {
        self.offset = offset;
        self.stick_to_bottom = false;
    }

    /// Leftmost visible column.
    pub fn x_offset(&self) -> (r: usize)
        ensures
            r == self.x_offset,
    {
        self.x_offset
    }

    /// Pan so the leftmost visible column is `cols`.
    pub fn set_x_offset(&mut self, cols: usize)
        ensures
            *final(self) == (ScrollState { x_offset: cols, ..*old(self) }),
    {
        self.x_offset = cols;
    }

    /// Whether the view follows the newest content.
    pub fn is_stuck_to_bottom(&self) -> (b: bool)
        ensures
            b == self.stick_to_bottom,
    {
        self.stick_to_bottom
    }

    /// The largest in-range offset: `content_h - viewport_h`, floored at 0.
    pub fn max_offset(content_h: usize, viewport_h: usize) -> (r: usize)
        ensures
            r == spec_max_offset(content_h as int, viewport_h as int),
    {
        VirtualWindow::max_start_for(content_h, viewport_h)
    }

    /// The largest in-range pan: `content_w - viewport_w`, floored at 0.
    pub fn max_x_offset(content_w: usize, viewport_w: usize) -> (r: usize)
        ensures
            r == spec_max_offset(content_w as int, viewport_w as int),
    {
        VirtualWindow::max_start_for(content_w, viewport_w)
    }

    /// Reconcile with the current content and viewport: snap to the bottom
    /// when sticking to it, otherwise clamp into range.
    pub fn clamp(&mut self, content_h: usize, viewport_h: usize)
        ensures
            final(self).x_offset == old(self).x_offset,
            final(self).stick_to_bottom == old(self).stick_to_bottom,
            final(self).offset == if old(self).stick_to_bottom {
                spec_max_offset(content_h as int, viewport_h as int)
            } else if old(self).offset <= spec_max_offset(content_h as int, viewport_h as int) {
                old(self).offset as int
            } else {
                spec_max_offset(content_h as int, viewport_h as int)
            },
    {
        let max = Self::max_offset(content_h, viewport_h);
        if self.stick_to_bottom {
            self.offset = max;
        } else {
            self.offset = if self.offset <= max { self.offset } else { max };
        }
    }

    /// Bound the pan to the widest line.
    pub fn clamp_x(&mut self, content_w: usize, viewport_w: usize)
        ensures
            final(self).offset == old(self).offset,
            final(self).stick_to_bottom == old(self).stick_to_bottom,
            final(self).x_offset == if old(self).x_offset <= spec_max_offset(content_w as int, viewport_w as int) {
                old(self).x_offset as int
            } else {
                spec_max_offset(content_w as int, viewport_w as int)
            },
    {
        let max = Self::max_x_offset(content_w, viewport_w);
        self.x_offset = if self.x_offset <= max { self.x_offset } else { max };
    }

    fn scroll_up(&mut self, lines: usize) -> (r: InputOutcome)
        ensures
            (*final(self), r) == spec_scroll_up(*old(self), lines as int),
    {
        let changed = self.offset != 0 || self.stick_to_bottom;
        self.offset = self.offset.saturating_sub(lines);
        self.stick_to_bottom = false;
        if changed { InputOutcome::Changed } else { InputOutcome::Consumed }
    }

    fn scroll_down(&mut self, lines: usize, content_h: usize, viewport_h: usize) -> (r: InputOutcome)
        ensures
            (*final(self), r) == spec_scroll_down(*old(self), lines as int, content_h as int, viewport_h as int),
    {
        let max = Self::max_offset(content_h, viewport_h);
        let changed = self.offset != max || !self.stick_to_bottom;
        let down = self.offset.saturating_add(lines);
        self.offset = if down <= max { down } else { max };
        self.stick_to_bottom = self.offset >= max;
        if changed { InputOutcome::Changed } else { InputOutcome::Consumed }
    }

    /// Jump to the newest content and stick to it.
    pub fn jump_to_bottom(&mut self, content_h: usize, viewport_h: usize)
        ensures
            *final(self) == (ScrollState {
                offset: spec_max_offset(content_h as int, viewport_h as int) as usize,
                stick_to_bottom: true,
                ..*old(self)
            }),
    {
        self.offset = Self::max_offset(content_h, viewport_h);
        self.stick_to_bottom = true;
    }

    /// Jump to the top.
    pub fn jump_to_top(&mut self)
        ensures
            *final(self) == (ScrollState { offset: 0, stick_to_bottom: false, ..*old(self) }),
    {
        self.offset = 0;
        self.stick_to_bottom = false;
    }

    /// The wheel scrolls three rows, PageUp/PageDown a page (viewport less
    /// one), Home and End jump to either end.
    pub fn handle(&mut self, event: &Event, content_h: usize, viewport_h: usize) -> (r: InputOutcome)
        ensures
            (*final(self), r) == spec_scroll_event(*old(self), *event, content_h as int, viewport_h as int),
    {
        let p = viewport_h.saturating_sub(1);
        let page = if p >= 1 { p } else { 1 };
        match event {
            Event::Mouse(m) => match m.kind {
                MouseKind::ScrollUp => self.scroll_up(3),
                MouseKind::ScrollDown => self.scroll_down(3, content_h, viewport_h),
                _ => InputOutcome::Ignored,
            },
            Event::Key(k) => {
                if !k.plain() {
                    return InputOutcome::Ignored;
                }
                match k.code {
                    KeyCode::PageUp => self.scroll_up(page),
                    KeyCode::PageDown => self.scroll_down(page, content_h, viewport_h),
                    KeyCode::Home => {
                        let changed = self.offset != 0 || self.stick_to_bottom;
                        self.jump_to_top();
                        if changed { InputOutcome::Changed } else { InputOutcome::Consumed }
                    },
                    KeyCode::End => {
                        let max = Self::max_offset(content_h, viewport_h);
                        let changed = self.offset != max || !self.stick_to_bottom;
                        self.jump_to_bottom(content_h, viewport_h);
                        if changed { InputOutcome::Changed } else { InputOutcome::Consumed }
                    },
                    _ => InputOutcome::Ignored,
                }
            },
            _ => InputOutcome::Ignored,
        }
    }
}

impl Default for ScrollState {
    fn default() -> (s: ScrollState)
        ensures
            s.offset == 0,
            s.x_offset == 0,
            s.stick_to_bottom,
    {
        ScrollState::new()
    }
}

/// What writing clusters `gs` from `i` on does, starting at column `col`
/// with `skip` display columns still to skip: a cluster inside the skip is
/// dropped, one straddling its edge is dropped and its visible columns left
/// blank, and every later cluster is written. Gives the cells, the column
/// after the last write, and the skip left.
pub open spec fn skip_write(
    area: Rect,
    cells: Seq<CellView>,
    clip: Rect,
    gs: Seq<Seq<char>>,
    i: int,
    col: int,
    y: int,
    style: Style,
    skip: int,
) -> (Seq<CellView>, int, int)
    decreases gs.len() - i,
{
    if i < 0 || i >= gs.len() {
        (cells, col, skip)
    } else {
        let w = cluster_cols(gs[i]) as int;
        if skip > 0 {
            if skip >= w {
                skip_write(area, cells, clip, gs, i + 1, col, y, style, skip - w)
            } else {
                skip_write(area, cells, clip, gs, i + 1, sat_add(col, w - skip), y, style, 0)
            }
        } else {
            let r = clipped_write(area, cells, clip, col, y, gs[i], style);
            skip_write(area, r.0, clip, gs, i + 1, r.1, y, style, 0)
        }
    }
}

/// The content of one wrapped or windowed row written from `x`, first skipping
/// `skip` display columns; a cluster straddling the skip edge is dropped and
/// its visible columns left blank.
pub fn set_string_skip(surface: &mut Surface, x: u16, y: u16, s: &str, style: Style, skip: &mut u16) -> (r: u16)
    requires
        old(surface).wf(),
    ensures
        final(surface).wf(),
        final(surface).buffer.area == old(surface).buffer.area,
        final(surface).clip == old(surface).clip,
        *final(skip) <= *old(skip),
        (final(surface).buffer.cells(), r as int, *final(skip) as int) == if *old(skip) == 0 {
            let w = clipped_write(
                old(surface).buffer.area,
                old(surface).buffer.cells(),
                old(surface).clip,
                x as int,
                y as int,
                s@,
                style,
            );
            (w.0, w.1, 0)
        } else {
            skip_write(
                old(surface).buffer.area,
                old(surface).buffer.cells(),
                old(surface).clip,
                grapheme_clusters(s@),
                0,
                x as int,
                y as int,
                style,
                *old(skip) as int,
            )
        },
{
    if *skip == 0 {
        return surface.set_string(x, y, s, style);
    }
    let gs = graphemes(s);
    let ghost gv = grapheme_clusters(s@);
    let ghost target = skip_write(
        surface.buffer.area,
        surface.buffer.cells(),
        surface.clip,
        gv,
        0,
        x as int,
        y as int,
        style,
        *skip as int,
    );
    let mut col = x;
    let mut i: usize = 0;
    while i < gs.len()
        invariant
            surface.wf(),
            surface.buffer.area == old(surface).buffer.area,
            surface.clip == old(surface).clip,
            *skip <= *old(skip),
            i <= gs@.len(),
            gv == grapheme_clusters(s@),
            views(gs@) == gv,
            skip_write(surface.buffer.area, surface.buffer.cells(), surface.clip, gv, i as int, col as int, y as int, style, *skip as int)
                == target,
        decreases gs@.len() - i,
    {
        proof {
            assert(gs@[i as int]@ == gv[i as int]);
        }
        let w = grapheme_cols(gs[i].as_str());
        if *skip > 0 {
            if *skip >= w {
                *skip = *skip - w;
            } else {
                col = col.saturating_add(w - *skip);
                *skip = 0;
            }
        } else {
            col = surface.set_string(col, y, gs[i].as_str(), style);
        }
        i = i + 1;
    }
    col
}

/// A windowed view of rows, showing the slice at the offset and a scrollbar
/// when the content overflows.
pub struct Scroll {
    pub lines: Vec<Line>,
    pub window_start: usize,
    pub content_height: usize,
    pub offset: usize,
    pub x_offset: usize,
    pub stick_to_bottom: bool,
    pub scrollbar: bool,
    pub wrap: bool,
    pub windowed: bool,
}

impl Scroll {
    /// A viewport owning all of `lines`, at `state`'s position.
    pub fn new(lines: Vec<Line>, state: &ScrollState) -> (s: Scroll)
        ensures
            s.content_height == lines@.len(),
            s.lines == lines,
            s.window_start == 0,
            s.offset == state.offset,
            s.x_offset == state.x_offset,
            s.stick_to_bottom == state.stick_to_bottom,
            s.scrollbar,
            !s.wrap,
            !s.windowed,
    {
        Scroll {
            content_height: lines.len(),
            lines,
            window_start: 0,
            offset: state.offset,
            x_offset: state.x_offset,
            stick_to_bottom: state.stick_to_bottom,
            scrollbar: true,
            wrap: false,
            windowed: false,
        }
    }

    /// A viewport holding only the visible window (rows from `state`'s offset)
    /// of content `content_height` rows tall.
    pub fn windowed(window: Vec<Line>, content_height: usize, state: &ScrollState) -> (s: Scroll)
        ensures
            s.content_height == content_height,
            s.lines == window,
            s.window_start == state.offset,
            s.offset == state.offset,
            s.x_offset == state.x_offset,
            s.stick_to_bottom == state.stick_to_bottom,
            s.scrollbar,
            !s.wrap,
            s.windowed,
    {
        Scroll {
            lines: window,
            window_start: state.offset,
            content_height,
            offset: state.offset,
            x_offset: state.x_offset,
            stick_to_bottom: state.stick_to_bottom,
            scrollbar: true,
            wrap: false,
            windowed: true,
        }
    }

    /// Whether to draw the overflow scrollbar.
    pub fn scrollbar(self, show: bool) -> (s: Scroll)
        ensures
            s == (Scroll { scrollbar: show, ..self }),
    {
        Scroll { scrollbar: show, ..self }
    }

    /// Whether to word-wrap the owned lines at the render width.
    pub fn wrap(self, wrap: bool) -> (s: Scroll)
        ensures
            s == (Scroll { wrap, ..self }),
    {
        Scroll { wrap, ..self }
    }

    /// Total content rows.
    pub fn content_height(&self) -> (r: usize)
        ensures
            r == self.content_height,
    {
        self.content_height
    }
}

/// One span written by [`set_string_skip`]: the cells, the column after it
/// and the columns still to skip.
pub open spec fn skip_step(
    area: Rect,
    cells: Seq<CellView>,
    clip: Rect,
    x: int,
    y: int,
    s: Seq<char>,
    style: Style,
    skip: int,
) -> (Seq<CellView>, int, int) {
    if skip == 0 {
        let w = clipped_write(area, cells, clip, x, y, s, style);
        (w.0, w.1, 0)
    } else {
        skip_write(area, cells, clip, grapheme_clusters(s), 0, x, y, style, skip)
    }
}

/// Runs written from column `x` with `skip` columns still to skip, stopping
/// once the column reaches `right`.
pub open spec fn skip_runs(
    area: Rect,
    cells: Seq<CellView>,
    clip: Rect,
    runs: Seq<(Seq<char>, Style)>,
    x: int,
    y: int,
    right: int,
    skip: int,
    k: int,
) -> Seq<CellView>
    decreases runs.len() - k,
{
    if k < 0 || k >= runs.len() || x >= right {
        cells
    } else {
        let r = skip_step(area, cells, clip, x, y, runs[k].0, runs[k].1, skip);
        skip_runs(area, r.0, clip, runs, r.1, y, right, r.2, k + 1)
    }
}

/// A content row's runs: each span over the row's style.
pub open spec fn row_runs(row: (Seq<StyledCell>, Style, Option<Alignment>)) -> Seq<(Seq<char>, Style)> {
    row.0.map_values(|c: StyledCell| (c.0, row.1.spec_patch(c.1)))
}

/// The rows a viewport draws from, the columns they may use and the content
/// height: wrapped viewports re-wrap one column narrower when a scrollbar
/// must take the last column; others keep their own lines.
pub open spec fn scroll_layout(s: Scroll, area: Rect) -> (Seq<(Seq<StyledCell>, Style, Option<Alignment>)>, int, int) {
    let own = lines_view(s.lines@);
    if s.wrap && !s.windowed {
        let first = wrap_lines_spec(s.lines@, area.width as int);
        let tw = if first.len() > area.height && s.scrollbar { sat_sub(area.width as int, 1) } else { area.width as int };
        if tw < area.width {
            let again = if tw == 0 { own } else { wrap_lines_spec(s.lines@, tw) };
            (again, tw, again.len() as int)
        } else {
            (first, tw, first.len() as int)
        }
    } else {
        let tw = if s.content_height > area.height && s.scrollbar { sat_sub(area.width as int, 1) } else { area.width as int };
        (own, tw, s.content_height as int)
    }
}

/// The first content row shown: pinned to the end when following the
/// bottom, else the offset (clamped to the content when wrapping).
pub open spec fn scroll_top(s: Scroll, content_h: int, height: int) -> int {
    let max_offset = spec_max_offset(content_h, height);
    if s.wrap && !s.windowed {
        if s.stick_to_bottom {
            max_offset
        } else if s.offset <= max_offset {
            s.offset as int
        } else {
            max_offset
        }
    } else {
        s.offset as int
    }
}

/// Area rows `row` on: each shows content row `top + row` (counted from
/// `window_start`), its runs clipped to the text width and, unwrapped,
/// panned by the horizontal offset; drawing stops at the first row with
/// no content.
pub open spec fn scroll_rows(
    barea: Rect,
    cells: Seq<CellView>,
    clip: Rect,
    area: Rect,
    rows: Seq<(Seq<StyledCell>, Style, Option<Alignment>)>,
    text_width: int,
    window_start: int,
    top: int,
    skip: int,
    row: int,
) -> Seq<CellView>
    decreases area.height - row,
{
    if row < 0 || row >= area.height {
        cells
    } else {
        let content_row = sat_usize(top + row);
        if content_row < window_start || content_row - window_start >= rows.len() {
            cells
        } else {
            let y = sat_add(area.y as int, row);
            let line_clip = (Rect { x: area.x, y: y as u16, width: text_width as u16, height: 1 }).spec_intersection(clip);
            let c = skip_runs(
                barea,
                cells,
                line_clip,
                row_runs(rows[content_row - window_start]),
                area.x as int,
                y,
                sat_add(area.x as int, text_width),
                skip,
                0,
            );
            scroll_rows(barea, c, clip, area, rows, text_width, window_start, top, skip, row + 1)
        }
    }
}

/// What a non-empty viewport puts in cell `(x, y)`: the text rows, then
/// the scrollbar in the last column when the content overflows and the
/// viewport shows one.
pub open spec fn scroll_cell(
    barea: Rect,
    cells: Seq<CellView>,
    clip: Rect,
    area: Rect,
    s: Scroll,
    theme: Theme,
    x: int,
    y: int,
) -> CellView {
    let (rows, tw, content_h) = scroll_layout(s, area);
    let wrapping = s.wrap && !s.windowed;
    let top = scroll_top(s, content_h, area.height as int);
    let drawn = scroll_rows(
        barea,
        cells,
        clip,
        area,
        rows,
        tw,
        if wrapping { 0 } else { s.window_start as int },
        top,
        if wrapping { 0 } else if s.x_offset <= 65535 { s.x_offset as int } else { 65535 },
        0,
    );
    let bar = if content_h > area.height && s.scrollbar && tw < area.width {
        scrollbar_cell(
            Rect { x: (area.spec_right() - 1) as u16, y: area.y, width: 1, height: area.height },
            thumb(VirtualWindow { total: content_h as usize, len: area.height as usize, start: top as usize }, area.height as int),
            theme.muted,
            theme.dim,
            x,
            y,
        )
    } else {
        None
    };
    paint_cell(drawn[flat_index(barea, x, y)], bar, clip, x, y)
}

impl crate::view::View for Scroll {
    /// The width offered by the content height (capped), wrapped first when
    /// wrapping owned rows.
    fn measure(&self, available: Size, ctx: &RenderCtx) -> (s: Size)
        ensures
            s.width == available.width,
            !(self.wrap && !self.windowed) ==> s.height == if self.content_height <= u16::MAX { self.content_height as int } else { u16::MAX as int },
    {
        let content_height = if self.wrap && !self.windowed {
            wrap_lines(self.lines.as_slice(), available.width).len()
        } else {
            self.content_height
        };
        Size::new(available.width, if content_height <= 65535 { content_height as u16 } else { 65535 })
    }

    fn render(&self, area: Rect, surface: &mut Surface, ctx: &RenderCtx)
        ensures
            forall|x: int, y: int|
                old(surface).buffer.area.holds(x, y) ==> #[trigger] final(surface).buffer.at(x, y) == if area.width
                    == 0 || area.height == 0 {
                    old(surface).buffer.at(x, y)
                } else {
                    scroll_cell(
                        old(surface).buffer.area,
                        old(surface).buffer.cells(),
                        old(surface).clip,
                        area,
                        *self,
                        ctx.theme,
                        x,
                        y,
                    )
                },
    {
        if area.width == 0 || area.height == 0 {
            return;
        }
        let ghost layout = scroll_layout(*self, area);
        let should_wrap = self.wrap && !self.windowed;
        let mut wrapped: Vec<Line> = if should_wrap { wrap_lines(self.lines.as_slice(), area.width) } else { Vec::new() };
        let mut content_h = if should_wrap { wrapped.len() } else { self.content_height };
        let mut overflow = content_h > area.height as usize;
        let text_width = if overflow && self.scrollbar { area.width.saturating_sub(1) } else { area.width };
        if should_wrap && text_width < area.width {
            wrapped = wrap_lines(self.lines.as_slice(), text_width);
            content_h = wrapped.len();
            overflow = content_h > area.height as usize;
        }
        let ghost rows = if should_wrap { lines_view(wrapped@) } else { lines_view(self.lines@) };
        proof {
            assert(rows == layout.0);
            assert(text_width == layout.1);
            assert(content_h == layout.2);
        }
        let window_start = if should_wrap { 0 } else { self.window_start };
        let max_offset = ScrollState::max_offset(content_h, area.height as usize);
        let offset = if should_wrap && self.stick_to_bottom {
            max_offset
        } else if should_wrap {
            if self.offset <= max_offset { self.offset } else { max_offset }
        } else {
            self.offset
        };
        let skip0: u16 = if should_wrap { 0 } else if self.x_offset <= 65535 { self.x_offset as u16 } else { 65535 };
        let ghost base = *surface;
        let ghost target = scroll_rows(
            surface.buffer.area,
            surface.buffer.cells(),
            surface.clip,
            area,
            rows,
            text_width as int,
            window_start as int,
            offset as int,
            skip0 as int,
            0,
        );
        let mut row: u16 = 0;
        while row < area.height
            invariant_except_break
                surface.wf(),
                surface.buffer.area == old(surface).buffer.area,
                surface.clip == old(surface).clip,
                row <= area.height,
                rows == if should_wrap { lines_view(wrapped@) } else { lines_view(self.lines@) },
                should_wrap == (self.wrap && !self.windowed),
                skip0 == (if should_wrap { 0 } else if self.x_offset <= 65535 { self.x_offset as int } else { 65535 }),
                scroll_rows(
                    surface.buffer.area,
                    surface.buffer.cells(),
                    surface.clip,
                    area,
                    rows,
                    text_width as int,
                    window_start as int,
                    offset as int,
                    skip0 as int,
                    row as int,
                ) == target,
            ensures
                surface.wf(),
                surface.buffer.area == old(surface).buffer.area,
                surface.clip == old(surface).clip,
                surface.buffer.cells() == target,
            decreases area.height - row,
        {
            let content_row = offset.saturating_add(row as usize);
            if content_row < window_start {
                break;
            }
            let idx = content_row - window_start;
            let n = if should_wrap { wrapped.len() } else { self.lines.len() };
            if idx >= n {
                break;
            }
            let line = if should_wrap { &wrapped[idx] } else { &self.lines[idx] };
            proof {
                assert(rows[idx as int] == line_view(*line));
            }
            let y = area.y.saturating_add(row);
            let prev = surface.narrow(Rect::new(area.x, y, text_width, 1));
            let mut skip: u16 = if should_wrap { 0 } else if self.x_offset <= 65535 { self.x_offset as u16 } else { 65535 };
            let mut x = area.x;
            let right = area.x.saturating_add(text_width);
            let ghost runs = row_runs(rows[idx as int]);
            let ghost c_end = skip_runs(
                surface.buffer.area,
                surface.buffer.cells(),
                surface.clip,
                runs,
                x as int,
                y as int,
                right as int,
                skip as int,
                0,
            );
            let mut k: usize = 0;
            while k < line.spans.len()
                invariant_except_break
                    surface.wf(),
                    surface.buffer.area == old(surface).buffer.area,
                    surface.clip == (Rect { x: area.x, y, width: text_width, height: 1 }).spec_intersection(prev),
                    prev == old(surface).clip,
                    k <= line.spans@.len(),
                    runs == line.spans@.map_values(|s: Span| (s.content@, line.style.spec_patch(s.style))),
                    skip_runs(
                        surface.buffer.area,
                        surface.buffer.cells(),
                        surface.clip,
                        runs,
                        x as int,
                        y as int,
                        right as int,
                        skip as int,
                        k as int,
                    ) == c_end,
                ensures
                    surface.wf(),
                    surface.buffer.area == old(surface).buffer.area,
                    surface.clip == (Rect { x: area.x, y, width: text_width, height: 1 }).spec_intersection(prev),
                    surface.buffer.cells() == c_end,
                decreases line.spans@.len() - k,
            {
                if x >= right {
                    break;
                }
                let span = &line.spans[k];
                proof {
                    assert(runs[k as int] == (span.content@, line.style.spec_patch(span.style)));
                }
                x = set_string_skip(surface, x, y, span.content.as_str(), line.style.patch(span.style), &mut skip);
                k = k + 1;
            }
            surface.restore_clip(prev);
            row = row + 1;
        }
        if overflow && self.scrollbar && text_width < area.width {
            let bar = Scrollbar::vertical(VirtualWindow::new(content_h, area.height as usize, offset));
            crate::view::View::render(&bar, Rect::new(area.right() - 1, area.y, 1, area.height), surface, ctx);
        }
    }
}

} // verus!
