//! Colors, text attributes, and the style patches that combine them.

use vstd::prelude::*;
use crate::geometry::Padding;

verus! {

/// A terminal color.
#[derive(Clone, Copy, Debug, PartialEq, Eq, Structural, Hash)]
pub enum Color {
    /// The terminal's own default.
    Reset,
    Black,
    Red,
    Green,
    Yellow,
    Blue,
    Magenta,
    Cyan,
    Gray,
    DarkGray,
    LightRed,
    LightGreen,
    LightYellow,
    LightBlue,
    LightMagenta,
    LightCyan,
    White,
    /// 24-bit color.
    Rgb(u8, u8, u8),
    /// An entry of the 256-color palette.
    Indexed(u8),
}

/// A set of text attributes, one bit each.
#[derive(Clone, Copy, Debug, PartialEq, Eq, Structural, Hash)]
pub struct Modifier {
    pub bits: u16,
}

impl Modifier {
    pub fn empty() -> (m: Modifier)
        ensures
            m.bits == 0,
    {
        Modifier { bits: 0 }
    }

    pub fn bold() -> (m: Modifier)
        ensures
            m.bits == 1,
    {
        Modifier { bits: 1 }
    }

    pub fn dim() -> (m: Modifier)
        ensures
            m.bits == 2,
    {
        Modifier { bits: 2 }
    }

    pub fn italic() -> (m: Modifier)
        ensures
            m.bits == 4,
    {
        Modifier { bits: 4 }
    }

    pub fn underlined() -> (m: Modifier)
        ensures
            m.bits == 8,
    {
        Modifier { bits: 8 }
    }

    pub fn slow_blink() -> (m: Modifier)
        ensures
            m.bits == 16,
    {
        Modifier { bits: 16 }
    }

    pub fn rapid_blink() -> (m: Modifier)
        ensures
            m.bits == 32,
    {
        Modifier { bits: 32 }
    }

    pub fn reversed() -> (m: Modifier)
        ensures
            m.bits == 64,
    {
        Modifier { bits: 64 }
    }

    pub fn hidden() -> (m: Modifier)
        ensures
            m.bits == 128,
    {
        Modifier { bits: 128 }
    }

    pub fn crossed_out() -> (m: Modifier)
        ensures
            m.bits == 256,
    {
        Modifier { bits: 256 }
    }

    pub open spec fn spec_union(self, other: Modifier) -> Modifier {
        Modifier { bits: self.bits | other.bits }
    }

    pub open spec fn spec_difference(self, other: Modifier) -> Modifier {
        Modifier { bits: self.bits & !other.bits }
    }

    pub open spec fn spec_intersection(self, other: Modifier) -> Modifier {
        Modifier { bits: self.bits & other.bits }
    }

    /// Attributes in either set.
    pub fn union(self, other: Modifier) -> (m: Modifier)
        ensures
            m == self.spec_union(other),
    {
        Modifier { bits: self.bits | other.bits }
    }

    /// Attributes in `self` but not in `other`.
    pub fn difference(self, other: Modifier) -> (m: Modifier)
        ensures
            m == self.spec_difference(other),
    {
        Modifier { bits: self.bits & !other.bits }
    }

    /// Attributes in both sets.
    pub fn intersection(self, other: Modifier) -> (m: Modifier)
        ensures
            m == self.spec_intersection(other),
    {
        Modifier { bits: self.bits & other.bits }
    }

    /// Whether every attribute of `other` is set in `self`.
    pub fn contains(self, other: Modifier) -> (b: bool)
        ensures
            b == (self.bits & other.bits == other.bits),
    {
        self.bits & other.bits == other.bits
    }

    pub fn is_empty(self) -> (b: bool)
        ensures
            b == (self.bits == 0),
    {
        self.bits == 0
    }
}

/// A style patch: each set field overrides, unset fields leave what is below.
#[derive(Clone, Copy, Debug, PartialEq, Eq, Structural, Hash)]
pub struct Style {
    pub fg: Option<Color>,
    pub bg: Option<Color>,
    pub underline_color: Option<Color>,
    pub add_modifier: Modifier,
    pub sub_modifier: Modifier,
}

pub open spec fn or_else(a: Option<Color>, b: Option<Color>) -> Option<Color> {
    match a {
        Some(c) => Some(c),
        None => b,
    }
}

impl Style {
    pub open spec fn spec_empty() -> Style {
        Style {
            fg: None,
            bg: None,
            underline_color: None,
            add_modifier: Modifier { bits: 0 },
            sub_modifier: Modifier { bits: 0 },
        }
    }

    /// The empty patch.
    pub fn new() -> (s: Style)
        ensures
            s == Style::spec_empty(),
    {
        Style {
            fg: None,
            bg: None,
            underline_color: None,
            add_modifier: Modifier { bits: 0 },
            sub_modifier: Modifier { bits: 0 },
        }
    }

    /// Set the foreground.
    pub fn fg(self, color: Color) -> (s: Style)
        ensures
            s == (Style { fg: Some(color), ..self }),
    {
        Style { fg: Some(color), ..self }
    }

    /// Set the background.
    pub fn bg(self, color: Color) -> (s: Style)
        ensures
            s == (Style { bg: Some(color), ..self }),
    {
        Style { bg: Some(color), ..self }
    }

    /// Set the underline color.
    pub fn underline_color(self, color: Color) -> (s: Style)
        ensures
            s == (Style { underline_color: Some(color), ..self }),
    {
        Style { underline_color: Some(color), ..self }
    }

    /// Add attributes (and stop removing them).
    pub fn add_modifier(self, m: Modifier) -> (s: Style)
        ensures
            s == (Style {
                add_modifier: self.add_modifier.spec_union(m),
                sub_modifier: self.sub_modifier.spec_difference(m),
                ..self
            }),
    {
        Style {
            add_modifier: self.add_modifier.union(m),
            sub_modifier: self.sub_modifier.difference(m),
            ..self
        }
    }

    /// Remove attributes (and stop adding them).
    pub fn remove_modifier(self, m: Modifier) -> (s: Style)
        ensures
            s == (Style {
                add_modifier: self.add_modifier.spec_difference(m),
                sub_modifier: self.sub_modifier.spec_union(m),
                ..self
            }),
    {
        Style {
            add_modifier: self.add_modifier.difference(m),
            sub_modifier: self.sub_modifier.union(m),
            ..self
        }
    }

    pub open spec fn spec_patch(self, other: Style) -> Style {
        Style {
            fg: or_else(other.fg, self.fg),
            bg: or_else(other.bg, self.bg),
            underline_color: or_else(other.underline_color, self.underline_color),
            add_modifier: self.add_modifier.spec_difference(other.sub_modifier).spec_union(
                other.add_modifier,
            ),
            sub_modifier: self.sub_modifier.spec_difference(other.add_modifier).spec_union(
                other.sub_modifier,
            ),
        }
    }

    /// Lay `other` over `self`: what `other` sets wins.
    pub fn patch(self, other: Style) -> (s: Style)
        ensures
            s == self.spec_patch(other),
    {
        Style {
            fg: match other.fg {
                Some(c) => Some(c),
                None => self.fg,
            },
            bg: match other.bg {
                Some(c) => Some(c),
                None => self.bg,
            },
            underline_color: match other.underline_color {
                Some(c) => Some(c),
                None => self.underline_color,
            },
            add_modifier: self.add_modifier.difference(other.sub_modifier).union(
                other.add_modifier,
            ),
            sub_modifier: self.sub_modifier.difference(other.add_modifier).union(
                other.sub_modifier,
            ),
        }
    }
}

impl Default for Style {
    fn default() -> (s: Style)
        ensures
            s == Style::spec_empty(),
    {
        Style::new()
    }
}

/// The palette of code and markdown: code backgrounds and text, labels,
/// headings and links.
#[derive(Clone, Copy, Debug, PartialEq, Eq, Structural)]
pub struct CodeTheme {
    pub background: Color,
    pub text: Color,
    pub label: Color,
    pub heading: Color,
    pub link: Color,
}

impl CodeTheme {
    pub open spec fn spec_default() -> CodeTheme {
        CodeTheme {
            background: Color::Indexed(235),
            text: Color::White,
            label: Color::DarkGray,
            heading: Color::Yellow,
            link: Color::Blue,
        }
    }

    /// The stock code palette.
    pub fn new() -> (t: CodeTheme)
        ensures
            t == CodeTheme::spec_default(),
    {
        CodeTheme {
            background: Color::Indexed(235),
            text: Color::White,
            label: Color::DarkGray,
            heading: Color::Yellow,
            link: Color::Blue,
        }
    }
}

impl Default for CodeTheme {
    fn default() -> (t: CodeTheme)
        ensures
            t == CodeTheme::spec_default(),
    {
        CodeTheme::new()
    }
}

/// The palette components read their default colors from.
#[derive(Clone, Copy, Debug, PartialEq, Eq, Structural)]
pub struct Theme {
    pub text: Color,
    pub muted: Color,
    pub dim: Color,
    pub accent: Color,
    pub border: Color,
    pub border_focused: Color,
    pub surface: Color,
    pub selection_bg: Color,
    pub selection_fg: Color,
    pub code: CodeTheme,
}

impl Theme {
    pub open spec fn spec_default() -> Theme {
        Theme {
            text: Color::Reset,
            muted: Color::DarkGray,
            dim: Color::Gray,
            accent: Color::Cyan,
            border: Color::DarkGray,
            border_focused: Color::Cyan,
            surface: Color::Black,
            selection_bg: Color::Indexed(236),
            selection_fg: Color::White,
            code: CodeTheme::spec_default(),
        }
    }

    /// The stock dark palette.
    pub fn new() -> (t: Theme)
        ensures
            t == Theme::spec_default(),
    {
        Theme {
            text: Color::Reset,
            muted: Color::DarkGray,
            dim: Color::Gray,
            accent: Color::Cyan,
            border: Color::DarkGray,
            border_focused: Color::Cyan,
            surface: Color::Black,
            selection_bg: Color::Indexed(236),
            selection_fg: Color::White,
            code: CodeTheme::new(),
        }
    }

    /// The highlighted-row style: selection colors, bold.
    pub fn selection_style(&self) -> (s: Style)
        ensures
            s == (Style {
                fg: Some(self.selection_fg),
                bg: Some(self.selection_bg),
                add_modifier: Modifier { bits: 1 },
                ..Style::spec_empty()
            }),
    {
        Style {
            fg: Some(self.selection_fg),
            bg: Some(self.selection_bg),
            underline_color: None,
            add_modifier: Modifier { bits: 1 },
            sub_modifier: Modifier { bits: 0 },
        }
    }

    /// Secondary text.
    pub fn muted_style(&self) -> (s: Style)
        ensures
            s == (Style { fg: Some(self.muted), ..Style::spec_empty() }),
    {
        Style {
            fg: Some(self.muted),
            bg: None,
            underline_color: None,
            add_modifier: Modifier { bits: 0 },
            sub_modifier: Modifier { bits: 0 },
        }
    }
}

impl Default for Theme {
    fn default() -> (t: Theme)
        ensures
            t == Theme::spec_default(),
    {
        Theme::new()
    }
}

/// What a stylesheet role applies: a style patch laid over the style below,
/// and, for a panel, the padding it keeps inside its frame.
#[derive(Clone, Copy, Debug, PartialEq, Eq, Structural)]
pub struct StyleBundle {
    pub style: Style,
    pub padding: Option<Padding>,
}

impl StyleBundle {
    /// A bundle that changes nothing.
    pub fn new() -> (b: StyleBundle)
        ensures
            b.style == Style::spec_empty(),
            b.padding.is_none(),
    {
        StyleBundle { style: Style::new(), padding: None }
    }

    /// Set the padding a panel keeps inside its frame.
    pub fn padding(self, padding: Padding) -> (b: StyleBundle)
        ensures
            b.style == self.style,
            b.padding == Some(padding),
    {
        StyleBundle { style: self.style, padding: Some(padding) }
    }

    /// Set the foreground.
    pub fn fg(self, color: Color) -> (b: StyleBundle)
        ensures
            b.style == (Style { fg: Some(color), ..self.style }),
            b.padding == self.padding,
    {
        StyleBundle { style: self.style.fg(color), padding: self.padding }
    }

    /// Set the background.
    pub fn bg(self, color: Color) -> (b: StyleBundle)
        ensures
            b.style == (Style { bg: Some(color), ..self.style }),
            b.padding == self.padding,
    {
        StyleBundle { style: self.style.bg(color), padding: self.padding }
    }

    /// Add attributes.
    pub fn modifier(self, m: Modifier) -> (b: StyleBundle)
        ensures
            b.style == (Style {
                add_modifier: self.style.add_modifier.spec_union(m),
                sub_modifier: self.style.sub_modifier.spec_difference(m),
                ..self.style
            }),
            b.padding == self.padding,
    {
        StyleBundle { style: self.style.add_modifier(m), padding: self.padding }
    }

    /// Add bold.
    pub fn bold(self) -> (b: StyleBundle)
        ensures
            b.style == (Style {
                add_modifier: self.style.add_modifier.spec_union(Modifier { bits: 1 }),
                sub_modifier: self.style.sub_modifier.spec_difference(Modifier { bits: 1 }),
                ..self.style
            }),
            b.padding == self.padding,
    {
        self.modifier(Modifier::bold())
    }

    /// Add italic.
    pub fn italic(self) -> (b: StyleBundle)
        ensures
            b.style == (Style {
                add_modifier: self.style.add_modifier.spec_union(Modifier { bits: 4 }),
                sub_modifier: self.style.sub_modifier.spec_difference(Modifier { bits: 4 }),
                ..self.style
            }),
            b.padding == self.padding,
    {
        self.modifier(Modifier::italic())
    }

    /// This bundle over `base`: what the bundle sets wins.
    pub fn apply(self, base: Style) -> (s: Style)
        ensures
            s == base.spec_patch(self.style),
    {
        base.patch(self.style)
    }

    /// This bundle over the empty style.
    pub fn to_style(self) -> (s: Style)
        ensures
            s == Style::spec_empty().spec_patch(self.style),
    {
        Style::new().patch(self.style)
    }
}

/// The semantic styles markup is drawn in, one bundle per role.
#[derive(Clone, Copy, Debug, PartialEq, Eq, Structural)]
pub struct StyleSheet {
    pub heading: StyleBundle,
    pub emphasis: StyleBundle,
    pub strong: StyleBundle,
    pub strikethrough: StyleBundle,
    pub link: StyleBundle,
    pub inline_code: StyleBundle,
    pub list_marker: StyleBundle,
    pub task_marker: StyleBundle,
    pub rule: StyleBundle,
    pub image_marker: StyleBundle,
    /// Bordered panels: the border color (`fg`, for unfocused borders), the
    /// fill (`bg`) and the padding, each used where the panel sets none.
    pub panel: StyleBundle,
}

/// A bundle holding exactly `style`.
pub open spec fn bundle(style: Style) -> StyleBundle {
    StyleBundle { style, padding: None }
}

impl StyleSheet {
    /// The stylesheet `from_theme` derives from `t`.
    pub open spec fn spec_from_theme(t: Theme) -> StyleSheet {
        let e = Style::spec_empty();
        StyleSheet {
            heading: bundle(Style { fg: Some(t.code.heading), add_modifier: Modifier { bits: 1 }, ..e }),
            emphasis: bundle(Style { add_modifier: Modifier { bits: 4 }, ..e }),
            strong: bundle(Style { add_modifier: Modifier { bits: 1 }, ..e }),
            strikethrough: bundle(Style { add_modifier: Modifier { bits: 256 }, ..e }),
            link: bundle(Style { fg: Some(t.code.link), add_modifier: Modifier { bits: 8 }, ..e }),
            inline_code: bundle(Style { fg: Some(t.code.text), bg: Some(t.code.background), ..e }),
            list_marker: bundle(Style { fg: Some(t.accent), ..e }),
            task_marker: bundle(Style { fg: Some(t.accent), ..e }),
            rule: bundle(Style { fg: Some(t.dim), ..e }),
            image_marker: bundle(Style { fg: Some(t.muted), ..e }),
            panel: bundle(e),
        }
    }

    /// The stylesheet a theme implies: headings bold in the heading color,
    /// links underlined in the link color, inline code on the code
    /// background, markers in the accent color.
    pub fn from_theme(t: &Theme) -> (s: StyleSheet)
        ensures
            s == StyleSheet::spec_from_theme(*t),
    {
        let e = Style::new();
        StyleSheet {
            heading: StyleBundle { style: Style { fg: Some(t.code.heading), add_modifier: Modifier::bold(), ..e }, padding: None },
            emphasis: StyleBundle { style: Style { add_modifier: Modifier::italic(), ..e }, padding: None },
            strong: StyleBundle { style: Style { add_modifier: Modifier::bold(), ..e }, padding: None },
            strikethrough: StyleBundle { style: Style { add_modifier: Modifier::crossed_out(), ..e }, padding: None },
            link: StyleBundle { style: Style { fg: Some(t.code.link), add_modifier: Modifier::underlined(), ..e }, padding: None },
            inline_code: StyleBundle { style: Style { fg: Some(t.code.text), bg: Some(t.code.background), ..e }, padding: None },
            list_marker: StyleBundle { style: Style { fg: Some(t.accent), ..e }, padding: None },
            task_marker: StyleBundle { style: Style { fg: Some(t.accent), ..e }, padding: None },
            rule: StyleBundle { style: Style { fg: Some(t.dim), ..e }, padding: None },
            image_marker: StyleBundle { style: Style { fg: Some(t.muted), ..e }, padding: None },
            panel: StyleBundle { style: e, padding: None },
        }
    }

    pub open spec fn spec_resolve(self, role: Role) -> StyleBundle {
        match role {
            Role::Link => self.link,
            Role::Strong => self.strong,
            Role::Emphasis => self.emphasis,
            Role::InlineCode => self.inline_code,
            Role::Strikethrough => self.strikethrough,
        }
    }

    /// The bundle a role is drawn in.
    pub fn resolve(&self, role: Role) -> (b: StyleBundle)
        ensures
            b == self.spec_resolve(role),
    {
        match role {
            Role::Link => self.link,
            Role::Strong => self.strong,
            Role::Emphasis => self.emphasis,
            Role::InlineCode => self.inline_code,
            Role::Strikethrough => self.strikethrough,
        }
    }
}

impl Default for StyleSheet {
    fn default() -> (s: StyleSheet)
        ensures
            s == StyleSheet::spec_from_theme(Theme::spec_default()),
    {
        let t = Theme::new();
        StyleSheet::from_theme(&t)
    }
}

/// The glyphs of one border style.
#[derive(Clone, Copy, Debug, PartialEq, Eq, Structural)]
pub struct BorderGlyphs {
    pub top_left: char,
    pub top_right: char,
    pub bottom_left: char,
    pub bottom_right: char,
    pub horizontal: char,
    pub vertical: char,
}

/// How a frame's border is drawn; `Borderless` draws none.
#[derive(Clone, Copy, Debug, PartialEq, Eq, Structural)]
pub enum BorderStyle {
    Borderless,
    Plain,
    Rounded,
    Double,
    Thick,
}

/// The glyph set each border style draws with (blanks for `Borderless`).
pub open spec fn border_glyph_set(b: BorderStyle) -> BorderGlyphs {
    match b {
        BorderStyle::Borderless => BorderGlyphs {
            top_left: ' ',
            top_right: ' ',
            bottom_left: ' ',
            bottom_right: ' ',
            horizontal: ' ',
            vertical: ' ',
        },
        BorderStyle::Plain => BorderGlyphs {
            top_left: '┌',
            top_right: '┐',
            bottom_left: '└',
            bottom_right: '┘',
            horizontal: '─',
            vertical: '│',
        },
        BorderStyle::Rounded => BorderGlyphs {
            top_left: '╭',
            top_right: '╮',
            bottom_left: '╰',
            bottom_right: '╯',
            horizontal: '─',
            vertical: '│',
        },
        BorderStyle::Double => BorderGlyphs {
            top_left: '╔',
            top_right: '╗',
            bottom_left: '╚',
            bottom_right: '╝',
            horizontal: '═',
            vertical: '║',
        },
        BorderStyle::Thick => BorderGlyphs {
            top_left: '┏',
            top_right: '┓',
            bottom_left: '┗',
            bottom_right: '┛',
            horizontal: '━',
            vertical: '┃',
        },
    }
}

impl BorderStyle {
    /// The glyph set of this style (blanks for `Borderless`).
    pub fn glyphs(self) -> (g: BorderGlyphs)
        ensures
            g == border_glyph_set(self),
    {
        match self {
            BorderStyle::Borderless => BorderGlyphs {
                top_left: ' ',
                top_right: ' ',
                bottom_left: ' ',
                bottom_right: ' ',
                horizontal: ' ',
                vertical: ' ',
            },
            BorderStyle::Plain => BorderGlyphs {
                top_left: '┌',
                top_right: '┐',
                bottom_left: '└',
                bottom_right: '┘',
                horizontal: '─',
                vertical: '│',
            },
            BorderStyle::Rounded => BorderGlyphs {
                top_left: '╭',
                top_right: '╮',
                bottom_left: '╰',
                bottom_right: '╯',
                horizontal: '─',
                vertical: '│',
            },
            BorderStyle::Double => BorderGlyphs {
                top_left: '╔',
                top_right: '╗',
                bottom_left: '╚',
                bottom_right: '╝',
                horizontal: '═',
                vertical: '║',
            },
            BorderStyle::Thick => BorderGlyphs {
                top_left: '┏',
                top_right: '┓',
                bottom_left: '┗',
                bottom_right: '┛',
                horizontal: '━',
                vertical: '┃',
            },
        }
    }
}

/// A stylesheet role: the semantic slot a piece of inline markup is styled
/// through, so restyling the role restyles every tag mapped to it.
#[derive(Clone, Copy, Debug, PartialEq, Eq, Structural)]
pub enum Role {
    Link,
    Strong,
    Emphasis,
    InlineCode,
    Strikethrough,
}

} // verus!
