//! A row of tab labels with a persisted selected index.

use vstd::prelude::*;
use crate::event::{Event, InputOutcome, KeyCode};
use crate::buffer::CellView;
use crate::geometry::{Rect, Size};
use crate::style::{Modifier, Style, Theme};
use crate::surface::{Surface, runs_col, write_runs};
use crate::text::{Line, Span, spans_cols};
use crate::view::RenderCtx;
use crate::width::cap16;
use super::text::line_width;

verus! {

/// `index` clamped to the last of `len` slots (0 when empty).
pub open spec fn clamp_index(index: int, len: int) -> int {
    if len == 0 {
        0
    } else if index < len - 1 {
        index
    } else {
        len - 1
    }
}

/// The selection after one step left (wrapping to the end).
pub open spec fn step_left(selected: int, len: int) -> int {
    let s = clamp_index(selected, len);
    if s == 0 { len - 1 } else { s - 1 }
}

/// The selection after one step right (wrapping to the start).
pub open spec fn step_right(selected: int, len: int) -> int {
    (clamp_index(selected, len) + 1) % len
}

/// Changed when the selection moved, Consumed when it stayed put.
pub open spec fn moved(before: int, after: int) -> InputOutcome {
    if before == after { InputOutcome::Consumed } else { InputOutcome::Changed }
}

/// Persisted selected tab.
#[derive(Clone, Debug)]
pub struct TabsState {
    pub selected: usize,
}

impl TabsState {
    /// The first tab selected.
    pub fn new() -> (s: TabsState)
        ensures
            s.selected == 0,
    {
        TabsState { selected: 0 }
    }

    /// A state with `index` selected.
    pub fn with_selected(index: usize) -> (s: TabsState)
        ensures
            s.selected == index,
    {
        TabsState { selected: index }
    }

    /// The selected tab.
    pub fn selected(&self) -> (r: usize)
        ensures
            r == self.selected,
    {
        self.selected
    }

    /// Select `index`, clamped to the last of `len` tabs.
    pub fn select(&mut self, index: usize, len: usize)
        ensures
            final(self).selected == clamp_index(index as int, len as int),
    {
        let last = len.saturating_sub(1);
        self.selected = if index < last { index } else { last };
    }

    /// Left/BackTab and Right/Tab move the selection, wrapping at the ends.
    pub fn handle(&mut self, event: &Event, len: usize) -> (r: InputOutcome)
        ensures
            ({
                let s = old(self).selected as int;
                match *event {
                    Event::Key(k) if len > 0 && k.spec_plain() => match k.code {
                        KeyCode::Left | KeyCode::BackTab => final(self).selected == step_left(s, len as int)
                            && r == moved(s, step_left(s, len as int)),
                        KeyCode::Right | KeyCode::Tab => final(self).selected == step_right(s, len as int)
                            && r == moved(s, step_right(s, len as int)),
                        _ => final(self).selected == s && r == InputOutcome::Ignored,
                    },
                    _ => final(self).selected == s && r == InputOutcome::Ignored,
                }
            }),
    {
        if len == 0 {
            return InputOutcome::Ignored;
        }
        let key = match event {
            Event::Key(key) => key,
            _ => {
                return InputOutcome::Ignored;
            },
        };
        if !key.plain() {
            return InputOutcome::Ignored;
        }
        let before = self.selected;
        match key.code {
            KeyCode::Left | KeyCode::BackTab => {
                let s = if self.selected < len - 1 { self.selected } else { len - 1 };
                self.selected = if s == 0 { len - 1 } else { s - 1 };
            },
            KeyCode::Right | KeyCode::Tab => {
                let s = if self.selected < len - 1 { self.selected } else { len - 1 };
                self.selected = (s + 1) % len;
            },
            _ => {
                return InputOutcome::Ignored;
            },
        }
        if self.selected == before {
            InputOutcome::Consumed
        } else {
            InputOutcome::Changed
        }
    }
}

impl Default for TabsState {
    fn default() -> (s: TabsState)
        ensures
            s.selected == 0,
    {
        TabsState::new()
    }
}

/// Sum of the labels' widths, capped.
pub open spec fn labels_cols(labels: Seq<Line>) -> int
    decreases labels.len(),
{
    if labels.len() == 0 {
        0
    } else {
        cap16(labels_cols(labels.drop_last()) + cap16(spans_cols(labels.last().spans@) as int))
    }
}

pub fn labels_width(labels: &[Line]) -> (w: u16)
    ensures
        w == labels_cols(labels@),
{
    let mut w: u16 = 0;
    let mut i: usize = 0;
    while i < labels.len()
        invariant
            i <= labels@.len(),
            w == labels_cols(labels@.take(i as int)),
        decreases labels@.len() - i,
    {
        proof {
            assert(labels@.take(i as int + 1).drop_last() =~= labels@.take(i as int));
        }
        w = w.saturating_add(line_width(&labels[i]));
        i = i + 1;
    }
    proof {
        assert(labels@.take(i as int) =~= labels@);
    }
    w
}

/// The style a label's spans are patched with: accent, bold and underlined
/// when it is the selected one, muted otherwise.
pub open spec fn tab_style(selected: bool, theme: Theme) -> Style {
    if selected {
        let base = Style { fg: Some(theme.accent), ..Style::spec_empty() };
        let m = Modifier { bits: 1 }.spec_union(Modifier { bits: 8 });
        Style {
            add_modifier: base.add_modifier.spec_union(m),
            sub_modifier: base.sub_modifier.spec_difference(m),
            ..base
        }
    } else {
        Style { fg: Some(theme.muted), ..Style::spec_empty() }
    }
}

/// The runs one label writes: a two-space muted gap before every label but
/// the first, then its spans, each patched with [`tab_style`].
pub open spec fn tab_runs(label: Line, gap: bool, selected: bool, theme: Theme) -> Seq<(Seq<char>, Style)> {
    let body = label.spans@.map_values(|s: Span| (s.content@, s.style.spec_patch(tab_style(selected, theme))));
    if gap {
        seq![(seq![' ', ' '], Style { fg: Some(theme.muted), ..Style::spec_empty() })] + body
    } else {
        body
    }
}

/// The row of labels from label `i` on, starting at column `x` of the
/// area's first row: each label written whole (cut only by the clip), and
/// drawing stops after the first label that reaches the area's right edge.
pub open spec fn tabs_cells(
    barea: Rect,
    cells: Seq<CellView>,
    clip: Rect,
    area: Rect,
    labels: Seq<Line>,
    selected: int,
    theme: Theme,
    x: int,
    i: int,
) -> Seq<CellView>
    decreases labels.len() - i,
{
    if i < 0 || i >= labels.len() {
        cells
    } else {
        let runs = tab_runs(labels[i], i > 0, i == selected, theme);
        let c = write_runs(barea, cells, clip, runs, x, area.y as int, 65536, 0);
        let x2 = runs_col(barea, cells, clip, runs, x, area.y as int, 65536, 0);
        if x2 >= area.spec_right() {
            c
        } else {
            tabs_cells(barea, c, clip, area, labels, selected, theme, x2, i + 1)
        }
    }
}

/// A row of tab labels; the selected one is drawn bold and underlined in the
/// accent color, the rest muted, separated by two spaces.
pub struct Tabs {
    pub labels: Vec<Line>,
    pub selected: usize,
}

impl Tabs {
    /// Tabs over `labels` with `state`'s selection.
    pub fn new(labels: Vec<Line>, state: &TabsState) -> (t: Tabs)
        ensures
            t.labels == labels,
            t.selected == state.selected,
    {
        Tabs { labels, selected: state.selected }
    }
}

impl crate::view::View for Tabs {
    /// Labels plus two-column gaps, capped to the width offered; one row when
    /// any height is offered.
    fn measure(&self, available: Size, ctx: &RenderCtx) -> (s: Size)
        ensures
            ({
                let n = self.labels@.len() as int;
                let gaps = if n == 0 { 0 } else { cap16(2 * cap16(n - 1)) };
                let w = cap16(labels_cols(self.labels@) + gaps);
                &&& s.width == if w <= available.width { w } else { available.width as int }
                &&& s.height == if available.height > 0 { 1int } else { 0int }
            }),
    {
        let labels = labels_width(self.labels.as_slice());
        let n = self.labels.len();
        let g: u16 = if n == 0 { 0 } else if n - 1 < 65535 { (n - 1) as u16 } else { 65535 };
        let gaps = g.saturating_add(g);
        let w = labels.saturating_add(gaps);
        Size::new(if w <= available.width { w } else { available.width }, if available.height > 0 { 1 } else { 0 })
    }

    fn render(&self, area: Rect, surface: &mut Surface, ctx: &RenderCtx)
        ensures
            final(surface).buffer.cells() == if area.width == 0 || area.height == 0 {
                old(surface).buffer.cells()
            } else {
                tabs_cells(
                    old(surface).buffer.area,
                    old(surface).buffer.cells(),
                    old(surface).clip,
                    area,
                    self.labels@,
                    self.selected as int,
                    ctx.theme,
                    area.x as int,
                    0,
                )
            },
    {
        if area.is_empty() {
            return;
        }
        let ghost target = tabs_cells(
            surface.buffer.area,
            surface.buffer.cells(),
            surface.clip,
            area,
            self.labels@,
            self.selected as int,
            ctx.theme,
            area.x as int,
            0,
        );
        let mut x = area.x;
        let mut index: usize = 0;
        while index < self.labels.len()
            invariant_except_break
                surface.wf(),
                surface.buffer.area == old(surface).buffer.area,
                surface.clip == old(surface).clip,
                index <= self.labels@.len(),
                tabs_cells(
                    surface.buffer.area,
                    surface.buffer.cells(),
                    surface.clip,
                    area,
                    self.labels@,
                    self.selected as int,
                    ctx.theme,
                    x as int,
                    index as int,
                ) == target,
            ensures
                surface.wf(),
                surface.buffer.area == old(surface).buffer.area,
                surface.clip == old(surface).clip,
                surface.buffer.cells() == target,
            decreases self.labels@.len() - index,
        {
            let label = &self.labels[index];
            let ghost runs = tab_runs(*label, index > 0, index == self.selected, ctx.theme);
            let ghost c_end = write_runs(
                surface.buffer.area,
                surface.buffer.cells(),
                surface.clip,
                runs,
                x as int,
                area.y as int,
                65536,
                0,
            );
            let ghost x_end = runs_col(
                surface.buffer.area,
                surface.buffer.cells(),
                surface.clip,
                runs,
                x as int,
                area.y as int,
                65536,
                0,
            );
            let ghost off: int = if index > 0 { 1 } else { 0 };
            if index > 0 {
                proof {
                    reveal_strlit("  ");
                    assert("  "@ =~= seq![' ', ' ']);
                }
                x = surface.set_string(x, area.y, "  ", ctx.theme.muted_style());
            }
            let selected = index == self.selected;
            let mut k: usize = 0;
            while k < label.spans.len()
                invariant
                    surface.wf(),
                    surface.buffer.area == old(surface).buffer.area,
                    surface.clip == old(surface).clip,
                    k <= label.spans@.len(),
                    selected == (index == self.selected),
                    runs == tab_runs(*label, index > 0, selected, ctx.theme),
                    off == (if index > 0 { 1int } else { 0int }),
                    write_runs(
                        surface.buffer.area,
                        surface.buffer.cells(),
                        surface.clip,
                        runs,
                        x as int,
                        area.y as int,
                        65536,
                        k + off,
                    ) == c_end,
                    runs_col(
                        surface.buffer.area,
                        surface.buffer.cells(),
                        surface.clip,
                        runs,
                        x as int,
                        area.y as int,
                        65536,
                        k + off,
                    ) == x_end,
                decreases label.spans@.len() - k,
            {
                let span = &label.spans[k];
                let style = if selected {
                    span.style.patch(
                        Style::new().fg(ctx.theme.accent).add_modifier(
                            Modifier::bold().union(Modifier::underlined()),
                        ),
                    )
                } else {
                    span.style.patch(Style::new().fg(ctx.theme.muted))
                };
                proof {
                    assert(runs[k + off] == (span.content@, style));
                }
                x = surface.set_string(x, area.y, span.content.as_str(), style);
                k = k + 1;
            }
            if x >= area.right() {
                break;
            }
            index = index + 1;
        }
    }
}

} // verus!
