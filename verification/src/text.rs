//! Styled text: [`Span`]s (one string, one style) and [`Line`]s of spans.

use vstd::prelude::*;
use crate::style::Style;
use crate::width::{str_cols, text_cols, cap16};

verus! {

/// Horizontal placement of a line within its area.
#[derive(Clone, Copy, Debug, PartialEq, Eq, Structural)]
pub enum Alignment {
    Left,
    Center,
    Right,
}

/// A run of text in one style.
#[derive(Debug, PartialEq, Eq)]
pub struct Span {
    pub content: String,
    pub style: Style,
}

impl Clone for Span {
    fn clone(&self) -> (s: Self)
        ensures
            s == *self,
    {
        Span { content: self.content.clone(), style: self.style }
    }
}

impl Span {
    /// An unstyled span.
    pub fn raw(content: &str) -> (s: Span)
        ensures
            s.content@ == content@,
            s.style == Style::spec_empty(),
    {
        Span { content: content.to_owned(), style: Style::new() }
    }

    /// A span in `style`.
    pub fn styled(content: &str, style: Style) -> (s: Span)
        ensures
            s.content@ == content@,
            s.style == style,
    {
        Span { content: content.to_owned(), style }
    }

    /// A span taking ownership of `content`.
    pub fn owned(content: String, style: Style) -> (s: Span)
        ensures
            s.content == content,
            s.style == style,
    {
        Span { content, style }
    }
}

/// One row of styled text: spans drawn left to right over the line's own style.
#[derive(Debug, PartialEq, Eq)]
pub struct Line {
    pub spans: Vec<Span>,
    pub style: Style,
    pub alignment: Option<Alignment>,
}

pub proof fn lemma_cloned_spans_equal(a: Seq<Span>, b: Seq<Span>)
    requires
        a.len() == b.len(),
        forall|i: int| 0 <= i < a.len() ==> cloned::<Span>(a[i], #[trigger] b[i]),
    ensures
        a == b,
{
    assert forall|i: int| 0 <= i < a.len() implies a[i] == b[i] by {
        assert(cloned::<Span>(a[i], b[i]));
    }
    assert(a =~= b);
}

impl Clone for Line {
    fn clone(&self) -> (l: Self)
        ensures
            l.spans@ == self.spans@,
            l.style == self.style,
            l.alignment == self.alignment,
    {
        let spans = self.spans.clone();
        proof {
            lemma_cloned_spans_equal(self.spans@, spans@);
        }
        Line { spans, style: self.style, alignment: self.alignment }
    }
}

impl Line {
    /// A line of no spans.
    pub fn new() -> (l: Line)
        ensures
            l.spans@.len() == 0,
            l.style == Style::spec_empty(),
            l.alignment.is_none(),
    {
        Line { spans: Vec::new(), style: Style::new(), alignment: None }
    }

    /// A line of one unstyled span.
    pub fn raw(content: &str) -> (l: Line)
        ensures
            l.spans@.len() == 1,
            l.spans@[0].content@ == content@,
            l.spans@[0].style == Style::spec_empty(),
            l.style == Style::spec_empty(),
            l.alignment.is_none(),
    {
        let mut spans = Vec::new();
        spans.push(Span::raw(content));
        Line { spans, style: Style::new(), alignment: None }
    }

    /// A line of one span in `style` (the line itself unstyled).
    pub fn styled(content: &str, style: Style) -> (l: Line)
        ensures
            l.spans@.len() == 1,
            l.spans@[0].content@ == content@,
            l.spans@[0].style == style,
            l.style == Style::spec_empty(),
            l.alignment.is_none(),
    {
        let mut spans = Vec::new();
        spans.push(Span::styled(content, style));
        Line { spans, style: Style::new(), alignment: None }
    }

    /// A line of the given spans.
    pub fn from_spans(spans: Vec<Span>) -> (l: Line)
        ensures
            l.spans == spans,
            l.style == Style::spec_empty(),
            l.alignment.is_none(),
    {
        Line { spans, style: Style::new(), alignment: None }
    }

    /// A line of one span.
    pub fn from_span(span: Span) -> (l: Line)
        ensures
            l.spans@ == seq![span],
            l.style == Style::spec_empty(),
            l.alignment.is_none(),
    {
        let mut spans = Vec::new();
        spans.push(span);
        Line { spans, style: Style::new(), alignment: None }
    }

    /// The same line, centered.
    pub fn centered(self) -> (l: Line)
        ensures
            l == (Line { alignment: Some(Alignment::Center), ..self }),
    {
        Line { alignment: Some(Alignment::Center), ..self }
    }

    /// The same line, flush right.
    pub fn right_aligned(self) -> (l: Line)
        ensures
            l == (Line { alignment: Some(Alignment::Right), ..self }),
    {
        Line { alignment: Some(Alignment::Right), ..self }
    }

    /// The same line, flush left.
    pub fn left_aligned(self) -> (l: Line)
        ensures
            l == (Line { alignment: Some(Alignment::Left), ..self }),
    {
        Line { alignment: Some(Alignment::Left), ..self }
    }

    /// The same line with `style` as its base style.
    pub fn with_style(self, style: Style) -> (l: Line)
        ensures
            l == (Line { style, ..self }),
    {
        Line { style, ..self }
    }
}

/// Total columns of a list of spans.
pub open spec fn spans_cols(spans: Seq<Span>) -> nat
    decreases spans.len(),
{
    if spans.len() == 0 {
        0
    } else {
        spans_cols(spans.drop_last()) + text_cols(spans.last().content@)
    }
}

/// Display width of a list of spans (sum of span widths, capped at `u16::MAX`).
pub fn spans_width(spans: &[Span]) -> (w: u16)
    ensures
        w == cap16(spans_cols(spans@) as int),
{
    let mut w: u16 = 0;
    let mut i: usize = 0;
    while i < spans.len()
        invariant
            i <= spans@.len(),
            w == cap16(spans_cols(spans@.take(i as int)) as int),
        decreases spans@.len() - i,
    {
        proof {
            assert(spans@.take(i as int + 1).drop_last() == spans@.take(i as int));
        }
        w = w.saturating_add(str_cols(spans[i].content.as_str()));
        i = i + 1;
    }
    proof {
        assert(spans@.take(i as int) == spans@);
    }
    w
}

impl Line {
    /// Display width: the sum of its spans' widths, capped at `u16::MAX`.
    pub fn width(&self) -> (w: u16)
        ensures
            w == cap16(spans_cols(self.spans@) as int),
    {
        spans_width(self.spans.as_slice())
    }
}

} // verus!
