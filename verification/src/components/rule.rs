//! A horizontal rule: an optional title, then a fill glyph out to the width.

use vstd::prelude::*;
use crate::geometry::{Rect, Size, sat_sub};
use crate::graphemes::push_char;
use crate::style::Style;
use crate::surface::{Surface, write_runs};
use crate::text::{Line, Span, spans_cols};
use crate::view::RenderCtx;
use crate::width::cap16;
use super::text::line_width;

verus! {

/// A one-row rule with an optional leading title.
pub struct Rule {
    pub title: Line,
    pub glyph: char,
    pub style: Style,
}

impl Rule {
    /// A full-width `─` rule with no title.
    pub fn new() -> (r: Rule)
        ensures
            r.title.spans@.len() == 0,
            r.glyph == '─',
            r.style == Style::spec_empty(),
    {
        Rule { title: Line::new(), glyph: '─', style: Style::new() }
    }

    /// A styled label drawn before the fill.
    pub fn title(self, title: Line) -> (r: Rule)
        ensures
            r.title == title,
            r.glyph == self.glyph,
            r.style == self.style,
    {
        Rule { title, ..self }
    }

    /// The fill glyph.
    pub fn glyph(self, glyph: char) -> (r: Rule)
        ensures
            r.title == self.title,
            r.glyph == glyph,
            r.style == self.style,
    {
        Rule { glyph, ..self }
    }

    /// The style of the fill run.
    pub fn style(self, style: Style) -> (r: Rule)
        ensures
            r.title == self.title,
            r.glyph == self.glyph,
            r.style == style,
    {
        Rule { style, ..self }
    }

    /// The composed line: title spans, then the glyph repeated out to `width`.
    pub fn line(&self, width: u16) -> (l: Line)
        ensures
            ({
                let fill = sat_sub(width as int, cap16(spans_cols(self.title.spans@) as int));
                &&& fill > 0 ==> l.spans@ == self.title.spans@.push(l.spans@.last())
                    && l.spans@.last().content@ == Seq::new(fill as nat, |i: int| self.glyph)
                    && l.spans@.last().style == self.style
                &&& fill <= 0 ==> l.spans@ == self.title.spans@
            }),
    {
        let mut spans = self.title.spans.clone();
        let fill = width.saturating_sub(line_width(&self.title));
        if fill > 0 {
            let mut s = String::new();
            let mut i: u16 = 0;
            while i < fill
                invariant
                    i <= fill,
                    s@ == Seq::new(i as nat, |k: int| self.glyph),
                decreases fill - i,
            {
                push_char(&mut s, self.glyph);
                proof {
                    assert(s@ =~= Seq::new((i + 1) as nat, |k: int| self.glyph));
                }
                i = i + 1;
            }
            spans.push(Span::owned(s, self.style));
        }
        Line::from_spans(spans)
    }
}

impl Default for Rule {
    fn default() -> (r: Rule)
        ensures
            r.title.spans@.len() == 0,
            r.glyph == '─',
            r.style == Style::spec_empty(),
    {
        Rule::new()
    }
}

/// The runs a rule draws at `width`: its title, then its glyph repeated
/// over the columns the title leaves, in the rule's style.
pub open spec fn rule_runs(r: Rule, width: int) -> Seq<(Seq<char>, Style)> {
    let title = r.title.spans@.map_values(|s: Span| (s.content@, s.style));
    let fill = sat_sub(width, cap16(spans_cols(r.title.spans@) as int));
    if fill > 0 {
        title.push((Seq::new(fill as nat, |i: int| r.glyph), r.style))
    } else {
        title
    }
}

impl crate::view::View for Rule {
    /// The full width offered, one row.
    fn measure(&self, available: Size, ctx: &RenderCtx) -> (s: Size)
        ensures
            s.width == available.width && s.height == 1,
    {
        Size::new(available.width, 1)
    }

    /// The title, then the glyph repeated to fill the width, written on the
    /// area's first row and cut at its right edge.
    fn render(&self, area: Rect, surface: &mut Surface, ctx: &RenderCtx)
        ensures
            final(surface).buffer.cells() == if area.height == 0 {
                old(surface).buffer.cells()
            } else {
                write_runs(
                    old(surface).buffer.area,
                    old(surface).buffer.cells(),
                    old(surface).clip,
                    rule_runs(*self, area.width as int),
                    area.x as int,
                    area.y as int,
                    area.spec_right(),
                    0,
                )
            },
    {
        if area.height == 0 {
            return;
        }
        let line = self.line(area.width);
        let ghost runs = rule_runs(*self, area.width as int);
        proof {
            assert(line.spans@.map_values(|s: Span| (s.content@, s.style)) =~= runs);
        }
        let ghost target = write_runs(
            surface.buffer.area,
            surface.buffer.cells(),
            surface.clip,
            runs,
            area.x as int,
            area.y as int,
            area.spec_right(),
            0,
        );
        let mut x = area.x;
        let mut k: usize = 0;
        while k < line.spans.len()
            invariant_except_break
                surface.wf(),
                surface.buffer.area == old(surface).buffer.area,
                surface.clip == old(surface).clip,
                k <= line.spans@.len(),
                runs == line.spans@.map_values(|s: Span| (s.content@, s.style)),
                write_runs(
                    surface.buffer.area,
                    surface.buffer.cells(),
                    surface.clip,
                    runs,
                    x as int,
                    area.y as int,
                    area.spec_right(),
                    k as int,
                ) == target,
            ensures
                surface.wf(),
                surface.buffer.area == old(surface).buffer.area,
                surface.clip == old(surface).clip,
                surface.buffer.cells() == target,
            decreases line.spans@.len() - k,
        {
            if x >= area.right() {
                break;
            }
            let span = &line.spans[k];
            x = surface.set_string(x, area.y, span.content.as_str(), span.style);
            k = k + 1;
        }
    }
}

} // verus!
