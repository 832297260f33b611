//! An animated activity spinner: one glyph per frame from a fixed cycle.

use vstd::prelude::*;
use crate::geometry::{Rect, Size};
use crate::style::{Color, Style};
use crate::surface::{Surface, clipped_write};
use crate::view::RenderCtx;

verus! {

/// The glyph cycle a spinner draws from.
#[derive(Clone, Copy, Debug, PartialEq, Eq, Structural)]
pub enum SpinnerStyle {
    /// Braille dots (the default).
    Braille,
    /// `| / - \`.
    Line,
    /// Falling dots.
    Dots,
}

/// Number of frames in a style's cycle.
pub open spec fn frame_count(style: SpinnerStyle) -> int {
    match style {
        SpinnerStyle::Braille => 10,
        SpinnerStyle::Line => 4,
        SpinnerStyle::Dots => 8,
    }
}

/// The glyph of frame `i` of a style's cycle.
pub open spec fn frame_glyph(style: SpinnerStyle, i: int) -> Seq<char> {
    match style {
        SpinnerStyle::Braille => if i == 0 { seq!['⠋'] } else if i == 1 { seq!['⠙'] } else if i == 2 { seq!['⠹'] } else if i == 3 { seq!['⠸'] } else if i == 4 { seq!['⠼'] } else if i == 5 { seq!['⠴'] } else if i == 6 { seq!['⠦'] } else if i == 7 { seq!['⠧'] } else if i == 8 { seq!['⠇'] } else if i == 9 { seq!['⠏'] } else { seq![] },
        SpinnerStyle::Line => if i == 0 { seq!['|'] } else if i == 1 { seq!['/'] } else if i == 2 { seq!['-'] } else if i == 3 { seq!['\\'] } else { seq![] },
        SpinnerStyle::Dots => if i == 0 { seq!['⠂'] } else if i == 1 { seq!['⠒'] } else if i == 2 { seq!['⠐'] } else if i == 3 { seq!['⠰'] } else if i == 4 { seq!['⠠'] } else if i == 5 { seq!['⠤'] } else if i == 6 { seq!['⠄'] } else if i == 7 { seq!['⠆'] } else { seq![] },
    }
}

impl SpinnerStyle {
    /// The frames of this style, in order.
    pub fn frames(self) -> (f: &'static [&'static str])
        ensures
            f@.len() == frame_count(self),
            forall|i: int| 0 <= i < f@.len() ==> (#[trigger] f@[i])@ == frame_glyph(self, i),
    {
        proof {
            reveal_strlit("⠋");
            reveal_strlit("⠙");
            reveal_strlit("⠹");
            reveal_strlit("⠸");
            reveal_strlit("⠼");
            reveal_strlit("⠴");
            reveal_strlit("⠦");
            reveal_strlit("⠧");
            reveal_strlit("⠇");
            reveal_strlit("⠏");
            reveal_strlit("|");
            reveal_strlit("/");
            reveal_strlit("-");
            reveal_strlit("\\");
            reveal_strlit("⠂");
            reveal_strlit("⠒");
            reveal_strlit("⠐");
            reveal_strlit("⠰");
            reveal_strlit("⠠");
            reveal_strlit("⠤");
            reveal_strlit("⠄");
            reveal_strlit("⠆");
        }
        match self {
            SpinnerStyle::Braille => &["⠋", "⠙", "⠹", "⠸", "⠼", "⠴", "⠦", "⠧", "⠇", "⠏"],
            SpinnerStyle::Line => &["|", "/", "-", "\\"],
            SpinnerStyle::Dots => &["⠂", "⠒", "⠐", "⠰", "⠠", "⠤", "⠄", "⠆"],
        }
    }
}

impl Default for SpinnerStyle {
    fn default() -> (s: SpinnerStyle)
        ensures
            s == SpinnerStyle::Braille,
    {
        SpinnerStyle::Braille
    }
}

/// A spinner showing the frame for tick `frame`.
pub struct Spinner {
    pub style: SpinnerStyle,
    pub frame: u64,
    pub color: Option<Color>,
}

impl Spinner {
    /// A braille spinner at tick `frame`, in the theme accent.
    pub fn new(frame: u64) -> (s: Spinner)
        ensures
            s.style == SpinnerStyle::Braille,
            s.frame == frame,
            s.color.is_none(),
    {
        Spinner { style: SpinnerStyle::Braille, frame, color: None }
    }

    /// Use another glyph cycle.
    pub fn style(self, style: SpinnerStyle) -> (s: Spinner)
        ensures
            s.style == style,
            s.frame == self.frame,
            s.color == self.color,
    {
        Spinner { style, ..self }
    }

    /// Draw in `color` instead of the theme accent.
    pub fn color(self, color: Color) -> (s: Spinner)
        ensures
            s.style == self.style,
            s.frame == self.frame,
            s.color == Some(color),
    {
        Spinner { color: Some(color), ..self }
    }

    /// The glyph for the current tick: frame `tick mod cycle length`.
    pub fn glyph(&self) -> (g: &'static str)
        ensures
            g@ == frame_glyph(self.style, (self.frame as int) % frame_count(self.style)),
    {
        let frames = self.style.frames();
        let n = frames.len() as u64;
        let i = (self.frame % n) as usize;
        frames[i]
    }
}

impl crate::view::View for Spinner {
    /// One cell.
    fn measure(&self, available: Size, ctx: &RenderCtx) -> (s: Size)
        ensures
            s.width == 1 && s.height == 1,
    {
        Size::new(1, 1)
    }

    /// The current frame's glyph at the area's origin, in the spinner's
    /// color (the theme accent by default); nothing in an empty area.
    fn render(&self, area: Rect, surface: &mut Surface, ctx: &RenderCtx)
        ensures
            final(surface).buffer.cells() == if area.width == 0 || area.height == 0 {
                old(surface).buffer.cells()
            } else {
                clipped_write(
                    old(surface).buffer.area,
                    old(surface).buffer.cells(),
                    old(surface).clip,
                    area.x as int,
                    area.y as int,
                    frame_glyph(self.style, (self.frame as int) % frame_count(self.style)),
                    Style {
                        fg: Some(
                            match self.color {
                                Some(c) => c,
                                None => ctx.theme.accent,
                            },
                        ),
                        ..Style::spec_empty()
                    },
                ).0
            },
    {
        if area.width == 0 || area.height == 0 {
            return;
        }
        let color = match self.color {
            Some(c) => c,
            None => ctx.theme.accent,
        };
        surface.set_string(area.x, area.y, self.glyph(), Style::new().fg(color));
    }
}

} // verus!
