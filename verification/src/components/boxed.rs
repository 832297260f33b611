//! Bordered box: a single-child container with border, padding, background
//! and optional top and bottom titles. Its border follows the theme (and the
//! context's focus flag) unless an explicit color overrides it.

use vstd::prelude::*;
use crate::geometry::{Padding, Rect, Size, min, sat_add, sat_sub};
use crate::style::{BorderStyle, Color, Style, StyleSheet, Theme, border_glyph_set};
use crate::surface::{Surface, border_glyph, painted, write_runs};
use crate::buffer::{CellView, flat_index, restyled};
use crate::width::cap16;
use crate::text::{Alignment, Line, Span, spans_cols};
use crate::view::RenderCtx;
use super::text::{aligned_x, line_width, spec_aligned_x};

verus! {

/// A bordered, padded container wrapping one child.
pub struct Boxed<V: crate::view::View> {
    pub child: V,
    pub border: BorderStyle,
    pub border_color: Option<Color>,
    pub padding: Option<Padding>,
    pub title: Option<Line>,
    pub title_bottom: Option<Line>,
    pub background: Option<Style>,
}

/// The padding a box uses: its own, else the stylesheet's panel padding,
/// else one cell left and right.
pub open spec fn resolved_padding(padding: Option<Padding>, sheet: StyleSheet) -> Padding {
    match padding {
        Some(p) => p,
        None => match sheet.panel.padding {
            Some(p) => p,
            None => Padding { top: 0, right: 1, bottom: 0, left: 1 },
        },
    }
}

/// Border plus padding, per axis.
pub open spec fn chrome(border: BorderStyle, padding: Padding) -> (int, int) {
    let b = if border == BorderStyle::Borderless { 0 } else { 2 };
    (
        sat_add(sat_add(padding.left as int, padding.right as int), b),
        sat_add(sat_add(padding.top as int, padding.bottom as int), b),
    )
}

/// The rectangle left to the child inside `area`.
pub open spec fn inner_rect(border: BorderStyle, padding: Padding, area: Rect) -> Rect {
    let bordered = if border == BorderStyle::Borderless {
        area
    } else {
        Rect {
            x: sat_add(area.x as int, 1) as u16,
            y: sat_add(area.y as int, 1) as u16,
            width: sat_sub(area.width as int, 2) as u16,
            height: sat_sub(area.height as int, 2) as u16,
        }
    };
    padding.spec_inner(bordered)
}

impl<V: crate::view::View> Boxed<V> {
    /// Wrap `child` in a rounded border with one cell of horizontal padding.
    pub fn new(child: V) -> (b: Boxed<V>)
        ensures
            b.child == child,
            b.border == BorderStyle::Rounded,
            b.border_color.is_none(),
            b.padding.is_none(),
            b.title.is_none(),
            b.title_bottom.is_none(),
            b.background.is_none(),
    {
        Boxed {
            child,
            border: BorderStyle::Rounded,
            border_color: None,
            padding: None,
            title: None,
            title_bottom: None,
            background: None,
        }
    }

    /// The border style (`Borderless` removes the border).
    pub fn border(self, border: BorderStyle) -> (b: Boxed<V>)
        ensures
            b.border == border,
            b.child == self.child && b.border_color == self.border_color && b.padding == self.padding,
            b.title == self.title && b.title_bottom == self.title_bottom && b.background == self.background,
    {
        Boxed { border, ..self }
    }

    /// Paint the border in `color`, overriding the theme and focus.
    pub fn border_color(self, color: Color) -> (b: Boxed<V>)
        ensures
            b.border_color == Some(color),
            b.child == self.child && b.border == self.border && b.padding == self.padding,
            b.title == self.title && b.title_bottom == self.title_bottom && b.background == self.background,
    {
        Boxed { border_color: Some(color), ..self }
    }

    /// The padding between the border and the child.
    pub fn padding(self, padding: Padding) -> (b: Boxed<V>)
        ensures
            b.padding == Some(padding),
            b.child == self.child && b.border == self.border && b.border_color == self.border_color,
            b.title == self.title && b.title_bottom == self.title_bottom && b.background == self.background,
    {
        Boxed { padding: Some(padding), ..self }
    }

    /// A title drawn after the top-left corner, placed by its alignment
    /// (flush left when unset).
    pub fn title(self, title: Line) -> (b: Boxed<V>)
        ensures
            b.title == Some(title),
            b.child == self.child && b.border == self.border && b.border_color == self.border_color,
            b.padding == self.padding && b.title_bottom == self.title_bottom && b.background == self.background,
    {
        Boxed { title: Some(title), ..self }
    }

    /// A title drawn on the bottom border, placed by its alignment (flush
    /// right when unset).
    pub fn title_bottom(self, title: Line) -> (b: Boxed<V>)
        ensures
            b.title_bottom == Some(title),
            b.child == self.child && b.border == self.border && b.border_color == self.border_color,
            b.padding == self.padding && b.title == self.title && b.background == self.background,
    {
        Boxed { title_bottom: Some(title), ..self }
    }

    /// Fill the box with `style` before drawing the child.
    pub fn background(self, style: Style) -> (b: Boxed<V>)
        ensures
            b.background == Some(style),
            b.child == self.child && b.border == self.border && b.border_color == self.border_color,
            b.padding == self.padding && b.title == self.title && b.title_bottom == self.title_bottom,
    {
        Boxed { background: Some(style), ..self }
    }

    fn has_border(&self) -> (b: bool)
        ensures
            b == (self.border != BorderStyle::Borderless),
    {
        match self.border {
            BorderStyle::Borderless => false,
            _ => true,
        }
    }

    fn resolved_padding(&self, sheet: &StyleSheet) -> (p: Padding)
        ensures
            p == resolved_padding(self.padding, *sheet),
    {
        match self.padding {
            Some(p) => p,
            None => match sheet.panel.padding {
                Some(p) => p,
                None => Padding::symmetric(1, 0),
            },
        }
    }

    /// The rectangle left to the child inside `area` under `sheet`.
    fn inner(&self, area: Rect, sheet: &StyleSheet) -> (r: Rect)
        ensures
            r == inner_rect(self.border, resolved_padding(self.padding, *sheet), area),
    {
        let bordered = if self.has_border() {
            Rect {
                x: area.x.saturating_add(1),
                y: area.y.saturating_add(1),
                width: area.width.saturating_sub(2),
                height: area.height.saturating_sub(2),
            }
        } else {
            area
        };
        self.resolved_padding(sheet).inner(bordered)
    }

    fn chrome(&self, sheet: &StyleSheet) -> (s: Size)
        ensures
            s.width == chrome(self.border, resolved_padding(self.padding, *sheet)).0,
            s.height == chrome(self.border, resolved_padding(self.padding, *sheet)).1,
    {
        let border: u16 = if self.has_border() { 2 } else { 0 };
        let padding = self.resolved_padding(sheet);
        Size::new(padding.horizontal().saturating_add(border), padding.vertical().saturating_add(border))
    }
}

/// Draw `title` on row `y` of `area`'s border, clipped between the corners,
/// placed by its alignment or else `default_align`.
fn draw_title(surface: &mut Surface, area: Rect, y: u16, title: &Line, default_align: Alignment)
    requires
        old(surface).wf(),
    ensures
        final(surface).wf(),
        final(surface).clip == old(surface).clip,
        final(surface).buffer.area == old(surface).buffer.area,
        final(surface).buffer.cells() == title_cells(
            old(surface).buffer.area,
            old(surface).buffer.cells(),
            old(surface).clip,
            area,
            y as int,
            *title,
            default_align,
        ),
{
    let max = area.width.saturating_sub(2);
    if max == 0 {
        return;
    }
    let region = Rect { x: area.x.saturating_add(1), y, width: max, height: 1 };
    let align = match title.alignment {
        Some(a) => a,
        None => default_align,
    };
    let mut x = aligned_x(align, line_width(title), region);
    let prev = surface.narrow(region);
    let ghost runs = title_runs(*title);
    let ghost target = write_runs(
        surface.buffer.area,
        surface.buffer.cells(),
        surface.clip,
        runs,
        x as int,
        y as int,
        65536,
        0,
    );
    let mut k: usize = 0;
    while k < title.spans.len()
        invariant
            surface.wf(),
            surface.buffer.area == old(surface).buffer.area,
            surface.clip == region.spec_intersection(old(surface).clip),
            k <= title.spans@.len(),
            runs == title_runs(*title),
            write_runs(surface.buffer.area, surface.buffer.cells(), surface.clip, runs, x as int, y as int, 65536, k as int)
                == target,
        decreases title.spans@.len() - k,
    {
        let span = &title.spans[k];
        x = surface.set_string(x, y, span.content.as_str(), title.style.patch(span.style));
        k = k + 1;
    }
    surface.restore_clip(prev);
}

/// The runs of a title line: each span over the line's style.
pub open spec fn title_runs(title: Line) -> Seq<(Seq<char>, Style)> {
    title.spans@.map_values(|s: Span| (s.content@, title.style.spec_patch(s.style)))
}

/// What drawing `title` on row `y` of `area`'s border does: nothing when the
/// border leaves no room; otherwise its spans, placed by its alignment (or
/// `default_align`) between the corners, clipped there and to `clip`.
pub open spec fn title_cells(
    barea: Rect,
    cells: Seq<CellView>,
    clip: Rect,
    area: Rect,
    y: int,
    title: Line,
    default_align: Alignment,
) -> Seq<CellView> {
    let max = sat_sub(area.width as int, 2);
    if max == 0 {
        cells
    } else {
        let region = Rect { x: sat_add(area.x as int, 1) as u16, y: y as u16, width: max as u16, height: 1 };
        let align = match title.alignment {
            Some(a) => a,
            None => default_align,
        };
        let x = spec_aligned_x(align, cap16(spans_cols(title.spans@) as int), region);
        write_runs(barea, cells, region.spec_intersection(clip), title_runs(title), x, y, 65536, 0)
    }
}

/// The border colour: the box's own; else, focused, the theme's focus
/// colour; else the stylesheet's panel colour, else the theme border.
pub open spec fn frame_color(border_color: Option<Color>, focused: bool, theme: Theme, sheet: StyleSheet) -> Color {
    match border_color {
        Some(c) => c,
        None => if focused {
            theme.border_focused
        } else {
            match sheet.panel.style.fg {
                Some(c) => c,
                None => theme.border,
            }
        },
    }
}

/// The fill a box lays under its frame: its own background, else the
/// stylesheet's panel background.
pub open spec fn frame_fill(background: Option<Style>, sheet: StyleSheet) -> Option<Style> {
    match background {
        Some(bg) => Some(bg),
        None => match sheet.panel.style.bg {
            Some(c) => Some(Style { bg: Some(c), ..Style::spec_empty() }),
            None => None,
        },
    }
}

/// What a box's frame leaves in cell `(x, y)` of `cells` (all of `barea`,
/// clipped to `clip`): the background restyled over the area, then the
/// border glyphs in the border colour.
pub open spec fn frame_cell<V: crate::view::View>(
    barea: Rect,
    cells: Seq<CellView>,
    clip: Rect,
    area: Rect,
    b: Boxed<V>,
    focused: bool,
    theme: Theme,
    sheet: StyleSheet,
    x: int,
    y: int,
) -> CellView {
    let filled = match frame_fill(b.background, sheet) {
        Some(bg) => restyled(barea, cells, area.spec_intersection(clip).spec_intersection(barea), bg),
        None => cells,
    };
    if b.border == BorderStyle::Borderless {
        filled[flat_index(barea, x, y)]
    } else {
        painted(
            filled[flat_index(barea, x, y)],
            border_glyph(area, border_glyph_set(b.border), x, y),
            clip,
            x,
            y,
            Style { fg: Some(frame_color(b.border_color, focused, theme, sheet)), ..Style::spec_empty() },
        )
    }
}

/// The titles drawn over a bordered frame: the top one on the first row
/// (left by default), the bottom one on the last (right by default).
pub open spec fn frame_titles<V: crate::view::View>(
    barea: Rect,
    cells: Seq<CellView>,
    clip: Rect,
    area: Rect,
    b: Boxed<V>,
) -> Seq<CellView> {
    if b.border == BorderStyle::Borderless {
        cells
    } else {
        let top = match b.title {
            Some(t) => title_cells(barea, cells, clip, area, area.y as int, t, Alignment::Left),
            None => cells,
        };
        match b.title_bottom {
            Some(t) => title_cells(barea, top, clip, area, sat_sub(area.spec_bottom(), 1), t, Alignment::Right),
            None => top,
        }
    }
}

impl<V: crate::view::View> crate::view::View for Boxed<V> {
    /// The child's size plus border and padding, within `available`.
    fn measure(&self, available: Size, ctx: &RenderCtx) -> (s: Size)
        ensures
            ({
                let c = chrome(self.border, resolved_padding(self.padding, ctx.sheet));
                exists|m: Size|
                    #![trigger sat_add(m.width as int, c.0)]
                    call_ensures(
                        V::measure,
                        (
                            &self.child,
                            Size {
                                width: sat_sub(available.width as int, c.0) as u16,
                                height: sat_sub(available.height as int, c.1) as u16,
                            },
                            ctx,
                        ),
                        m,
                    ) && s.width == min(sat_add(m.width as int, c.0), available.width as int) && s.height == min(
                        sat_add(m.height as int, c.1),
                        available.height as int,
                    )
            }),
    {
        let chrome = self.chrome(&ctx.sheet);
        let inner_avail = Size::new(
            available.width.saturating_sub(chrome.width),
            available.height.saturating_sub(chrome.height),
        );
        let content = self.child.measure(inner_avail, ctx);
        let w = content.width.saturating_add(chrome.width);
        let h = content.height.saturating_add(chrome.height);
        proof {
            let c = self::chrome(self.border, resolved_padding(self.padding, ctx.sheet));
            assert(w == sat_add(content.width as int, c.0));
            assert(h == sat_add(content.height as int, c.1));
        }
        Size::new(
            if w < available.width { w } else { available.width },
            if h < available.height { h } else { available.height },
        )
    }

    /// The frame (background, border, titles), then the child drawn into the
    /// inner rectangle with the clip narrowed to it.
    fn render(&self, area: Rect, surface: &mut Surface, ctx: &RenderCtx)
        ensures
            area.width == 0 || area.height == 0 ==> final(surface).buffer == old(surface).buffer,
            area.width > 0 && area.height > 0 ==> exists|r: &mut Surface, framed: Seq<CellView>|
                #![trigger call_ensures(V::render, (&self.child, inner_rect(self.border, resolved_padding(self.padding, ctx.sheet), area), r, ctx), ()), framed.len()]
                framed.len() == old(surface).buffer.cells().len() && (forall|x: int, y: int|
                    old(surface).buffer.area.holds(x, y) ==> #[trigger] framed[flat_index(old(surface).buffer.area, x, y)]
                        == frame_cell(
                        old(surface).buffer.area,
                        old(surface).buffer.cells(),
                        old(surface).clip,
                        area,
                        *self,
                        ctx.focused,
                        ctx.theme,
                        ctx.sheet,
                        x,
                        y,
                    )) && mut_ref_current(r).buffer.area == old(surface).buffer.area
                    && mut_ref_current(r).buffer.cells() == frame_titles(
                    old(surface).buffer.area,
                    framed,
                    old(surface).clip,
                    area,
                    *self,
                ) && mut_ref_current(r).clip == inner_rect(self.border, resolved_padding(self.padding, ctx.sheet), area).spec_intersection(
                    old(surface).clip,
                ) && mut_ref_future(r).buffer == final(surface).buffer && call_ensures(
                    V::render,
                    (&self.child, inner_rect(self.border, resolved_padding(self.padding, ctx.sheet), area), r, ctx),
                    (),
                ),
    {
        if area.width == 0 || area.height == 0 {
            return;
        }
        let ghost base = *surface;
        let background = match self.background {
            Some(bg) => Some(bg),
            None => match ctx.sheet.panel.style.bg {
                Some(c) => Some(Style::new().bg(c)),
                None => None,
            },
        };
        match background {
            Some(bg) => {
                let prev = surface.narrow(area);
                surface.fill(bg);
                surface.restore_clip(prev);
            },
            None => {},
        }
        let ghost filled = surface.buffer.cells();
        let ghost s1 = *surface;
        proof {
            assert(background == frame_fill(self.background, ctx.sheet));
            assert(filled == match frame_fill(self.background, ctx.sheet) {
                Some(bg) => restyled(
                    base.buffer.area,
                    base.buffer.cells(),
                    area.spec_intersection(base.clip).spec_intersection(base.buffer.area),
                    bg,
                ),
                None => base.buffer.cells(),
            });
        }
        if self.has_border() {
            let color = match self.border_color {
                Some(c) => c,
                None => if ctx.focused {
                    ctx.theme.border_focused
                } else {
                    match ctx.sheet.panel.style.fg {
                        Some(c) => c,
                        None => ctx.theme.border,
                    }
                },
            };
            let border_style = Style::new().fg(color);
            surface.draw_border(area, self.border.glyphs(), border_style);
        }
        let ghost framed = surface.buffer.cells();
        let ghost s2 = *surface;
        proof {
            assert(framed.len() == base.buffer.cells().len());
            assert forall|x: int, y: int| base.buffer.area.holds(x, y) implies #[trigger] framed[flat_index(
                base.buffer.area,
                x,
                y,
            )] == frame_cell(base.buffer.area, base.buffer.cells(), base.clip, area, *self, ctx.focused, ctx.theme, ctx.sheet, x, y) by {
                assert(s2.buffer.at(x, y) == framed[flat_index(base.buffer.area, x, y)]);
                assert(s1.buffer.at(x, y) == filled[flat_index(base.buffer.area, x, y)]);
            }
        }
        if self.has_border() {
            match &self.title {
                Some(title) => draw_title(surface, area, area.y, title, Alignment::Left),
                None => {},
            }
            match &self.title_bottom {
                Some(title) => {
                    let bottom = area.bottom().saturating_sub(1);
                    draw_title(surface, area, bottom, title, Alignment::Right);
                },
                None => {},
            }
        }
        proof {
            assert(surface.buffer.cells() == frame_titles(base.buffer.area, framed, base.clip, area, *self));
        }
        let inner = self.inner(area, &ctx.sheet);
        let prev = surface.narrow(inner);
        self.child.render(inner, surface, ctx);
        surface.restore_clip(prev);
    }
}


} // verus!
