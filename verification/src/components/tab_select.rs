//! A horizontal single-choice selector of "pills".

use vstd::prelude::*;
use crate::event::{Event, InputOutcome, KeyCode};
use crate::buffer::CellView;
use crate::geometry::{Rect, Size};
use crate::style::{Modifier, Style, Theme};
use crate::surface::{Surface, clipped_write, runs_col, write_runs};
use crate::text::{Line, Span};
use crate::view::RenderCtx;
use crate::width::cap16;
use crate::text::spans_cols;
use super::tabs::{clamp_index, moved, step_left, step_right};
use super::text::line_width;

verus! {

/// Selection and outcome after `event` on a selector of `len` pills whose
/// selection is `s`: Left/BackTab and Right/Tab step (wrapping), Enter and
/// Space submit the clamped selection, anything else is ignored.
pub open spec fn tab_select_event(s: int, event: Event, len: int) -> (int, InputOutcome) {
    match event {
        Event::Key(k) if len > 0 && k.spec_plain() => match k.code {
            KeyCode::Left | KeyCode::BackTab => (step_left(s, len), moved(s, step_left(s, len))),
            KeyCode::Right | KeyCode::Tab => (step_right(s, len), moved(s, step_right(s, len))),
            KeyCode::Enter => (clamp_index(s, len), InputOutcome::Submitted),
            KeyCode::Char(' ') => (clamp_index(s, len), InputOutcome::Submitted),
            _ => (s, InputOutcome::Ignored),
        },
        _ => (s, InputOutcome::Ignored),
    }
}

/// Persisted selected pill.
#[derive(Clone, Copy, Debug)]
pub struct TabSelectState {
    pub selected: usize,
}

impl TabSelectState {
    /// The first pill selected.
    pub fn new() -> (s: TabSelectState)
        ensures
            s.selected == 0,
    {
        TabSelectState { selected: 0 }
    }

    /// A state with `index` selected.
    pub fn with_selected(index: usize) -> (s: TabSelectState)
        ensures
            s.selected == index,
    {
        TabSelectState { selected: index }
    }

    /// The selected pill.
    pub fn selected(&self) -> (r: usize)
        ensures
            r == self.selected,
    {
        self.selected
    }

    /// Select `index`, clamped to the last of `len` pills.
    pub fn select(&mut self, index: usize, len: usize)
        ensures
            final(self).selected == clamp_index(index as int, len as int),
    {
        let last = len.saturating_sub(1);
        self.selected = if index < last { index } else { last };
    }

    /// Left/BackTab and Right/Tab move (wrapping); Enter and Space submit the
    /// (clamped) selection.
    pub fn handle(&mut self, event: &Event, len: usize) -> (r: InputOutcome)
        ensures
            (final(self).selected as int, r) == tab_select_event(old(self).selected as int, *event, len as int),
    {
        if len == 0 {
            return InputOutcome::Ignored;
        }
        let key = match event {
            Event::Key(key) => key,
            _ => {
                return InputOutcome::Ignored;
            },
        };
        if !key.plain() {
            return InputOutcome::Ignored;
        }
        let before = self.selected;
        let s = if self.selected < len - 1 { self.selected } else { len - 1 };
        match key.code {
            KeyCode::Left | KeyCode::BackTab => {
                self.selected = if s == 0 { len - 1 } else { s - 1 };
            },
            KeyCode::Right | KeyCode::Tab => {
                self.selected = (s + 1) % len;
            },
            KeyCode::Enter => {
                self.selected = s;
                return InputOutcome::Submitted;
            },
            KeyCode::Char(c) => {
                if c == ' ' {
                    self.selected = s;
                    return InputOutcome::Submitted;
                }
                return InputOutcome::Ignored;
            },
            _ => {
                return InputOutcome::Ignored;
            },
        }
        if self.selected == before {
            InputOutcome::Consumed
        } else {
            InputOutcome::Changed
        }
    }
}

impl Default for TabSelectState {
    fn default() -> (s: TabSelectState)
        ensures
            s.selected == 0,
    {
        TabSelectState::new()
    }
}

/// Width of pills: each label plus one cell of padding per side.
pub open spec fn pills_cols(labels: Seq<Line>) -> int
    decreases labels.len(),
{
    if labels.len() == 0 {
        0
    } else {
        cap16(pills_cols(labels.drop_last()) + cap16(cap16(spans_cols(labels.last().spans@) as int) + 2))
    }
}

/// A pill's base style: the theme selection when selected, muted otherwise.
pub open spec fn pill_base(selected: bool, theme: Theme) -> Style {
    if selected {
        Style {
            fg: Some(theme.selection_fg),
            bg: Some(theme.selection_bg),
            add_modifier: Modifier { bits: 1 },
            ..Style::spec_empty()
        }
    } else {
        Style { fg: Some(theme.muted), ..Style::spec_empty() }
    }
}

/// The runs of a pill's label: the selected pill's spans in its base style
/// made bold, the others' spans patched with the muted base.
pub open spec fn pill_runs(label: Line, selected: bool, theme: Theme) -> Seq<(Seq<char>, Style)> {
    let base = pill_base(selected, theme);
    if selected {
        let bold = Style {
            add_modifier: base.add_modifier.spec_union(Modifier { bits: 1 }),
            sub_modifier: base.sub_modifier.spec_difference(Modifier { bits: 1 }),
            ..base
        };
        label.spans@.map_values(|s: Span| (s.content@, bold))
    } else {
        label.spans@.map_values(|s: Span| (s.content@, s.style.spec_patch(base)))
    }
}

/// The pills from pill `i` on, starting at column `x` of the area's first
/// row: each is a space, its label cut at the area's right edge, and a
/// space, all in the pill's base style; drawing stops once a pill would
/// start at or past the right edge.
pub open spec fn pills_cells(
    barea: Rect,
    cells: Seq<CellView>,
    clip: Rect,
    area: Rect,
    labels: Seq<Line>,
    selected: int,
    theme: Theme,
    x: int,
    i: int,
) -> Seq<CellView>
    decreases labels.len() - i,
{
    if i < 0 || i >= labels.len() || x >= area.spec_right() {
        cells
    } else {
        let base = pill_base(i == selected, theme);
        let runs = pill_runs(labels[i], i == selected, theme);
        let a = clipped_write(barea, cells, clip, x, area.y as int, seq![' '], base);
        let c = write_runs(barea, a.0, clip, runs, a.1, area.y as int, area.spec_right(), 0);
        let x2 = runs_col(barea, a.0, clip, runs, a.1, area.y as int, area.spec_right(), 0);
        let b = clipped_write(barea, c, clip, x2, area.y as int, seq![' '], base);
        pills_cells(barea, b.0, clip, area, labels, selected, theme, b.1, i + 1)
    }
}

/// A row of pills, the selected one highlighted.
pub struct TabSelect {
    pub labels: Vec<Line>,
    pub selected: usize,
}

impl TabSelect {
    /// Pills over `labels` with `state`'s selection.
    pub fn new(labels: Vec<Line>, state: &TabSelectState) -> (t: TabSelect)
        ensures
            t.labels == labels,
            t.selected == state.selected,
    {
        TabSelect { labels, selected: state.selected }
    }
}

impl crate::view::View for TabSelect {
    /// The pills' total width (capped to the offer), one row when any height
    /// is offered.
    fn measure(&self, available: Size, ctx: &RenderCtx) -> (s: Size)
        ensures
            s.width == if pills_cols(self.labels@) <= available.width { pills_cols(self.labels@) } else { available.width as int },
            s.height == if available.height > 0 { 1int } else { 0int },
    {
        let mut w: u16 = 0;
        let mut i: usize = 0;
        while i < self.labels.len()
            invariant
                i <= self.labels@.len(),
                w == pills_cols(self.labels@.take(i as int)),
            decreases self.labels@.len() - i,
        {
            proof {
                assert(self.labels@.take(i as int + 1).drop_last() =~= self.labels@.take(i as int));
            }
            w = w.saturating_add(line_width(&self.labels[i]).saturating_add(2));
            i = i + 1;
        }
        proof {
            assert(self.labels@.take(i as int) =~= self.labels@);
        }
        Size::new(if w <= available.width { w } else { available.width }, if available.height > 0 { 1 } else { 0 })
    }

    fn render(&self, area: Rect, surface: &mut Surface, ctx: &RenderCtx)
        ensures
            final(surface).buffer.cells() == if area.width == 0 || area.height == 0 {
                old(surface).buffer.cells()
            } else {
                pills_cells(
                    old(surface).buffer.area,
                    old(surface).buffer.cells(),
                    old(surface).clip,
                    area,
                    self.labels@,
                    self.selected as int,
                    ctx.theme,
                    area.x as int,
                    0,
                )
            },
    {
        if area.is_empty() {
            return;
        }
        proof {
            reveal_strlit(" ");
            assert(" "@ =~= seq![' ']);
        }
        let ghost target = pills_cells(
            surface.buffer.area,
            surface.buffer.cells(),
            surface.clip,
            area,
            self.labels@,
            self.selected as int,
            ctx.theme,
            area.x as int,
            0,
        );
        let mut x = area.x;
        let mut index: usize = 0;
        while index < self.labels.len()
            invariant_except_break
                surface.wf(),
                surface.buffer.area == old(surface).buffer.area,
                surface.clip == old(surface).clip,
                index <= self.labels@.len(),
                " "@ == seq![' '],
                pills_cells(
                    surface.buffer.area,
                    surface.buffer.cells(),
                    surface.clip,
                    area,
                    self.labels@,
                    self.selected as int,
                    ctx.theme,
                    x as int,
                    index as int,
                ) == target,
            ensures
                surface.wf(),
                surface.buffer.area == old(surface).buffer.area,
                surface.clip == old(surface).clip,
                surface.buffer.cells() == target,
            decreases self.labels@.len() - index,
        {
            if x >= area.right() {
                break;
            }
            let label = &self.labels[index];
            let selected = index == self.selected;
            let base = if selected {
                ctx.theme.selection_style()
            } else {
                Style::new().fg(ctx.theme.muted)
            };
            x = surface.set_string(x, area.y, " ", base);
            let ghost runs = pill_runs(*label, selected, ctx.theme);
            let ghost c_end = write_runs(
                surface.buffer.area,
                surface.buffer.cells(),
                surface.clip,
                runs,
                x as int,
                area.y as int,
                area.spec_right(),
                0,
            );
            let ghost x_end = runs_col(
                surface.buffer.area,
                surface.buffer.cells(),
                surface.clip,
                runs,
                x as int,
                area.y as int,
                area.spec_right(),
                0,
            );
            let mut k: usize = 0;
            while k < label.spans.len()
                invariant_except_break
                    surface.wf(),
                    surface.buffer.area == old(surface).buffer.area,
                    surface.clip == old(surface).clip,
                    k <= label.spans@.len(),
                    selected == (index == self.selected),
                    base == pill_base(selected, ctx.theme),
                    runs == pill_runs(*label, selected, ctx.theme),
                    write_runs(
                        surface.buffer.area,
                        surface.buffer.cells(),
                        surface.clip,
                        runs,
                        x as int,
                        area.y as int,
                        area.spec_right(),
                        k as int,
                    ) == c_end,
                    runs_col(
                        surface.buffer.area,
                        surface.buffer.cells(),
                        surface.clip,
                        runs,
                        x as int,
                        area.y as int,
                        area.spec_right(),
                        k as int,
                    ) == x_end,
                ensures
                    surface.wf(),
                    surface.buffer.area == old(surface).buffer.area,
                    surface.clip == old(surface).clip,
                    surface.buffer.cells() == c_end,
                    x == x_end,
                decreases label.spans@.len() - k,
            {
                if x >= area.right() {
                    break;
                }
                let span = &label.spans[k];
                let style = if selected {
                    base.add_modifier(Modifier::bold())
                } else {
                    span.style.patch(base)
                };
                proof {
                    assert(runs[k as int] == (span.content@, style));
                }
                x = surface.set_string(x, area.y, span.content.as_str(), style);
                k = k + 1;
            }
            x = surface.set_string(x, area.y, " ", base);
            index = index + 1;
        }
    }
}

} // verus!
