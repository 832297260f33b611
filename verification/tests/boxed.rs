use tuika::buffer::{Buffer, Cell};
use tuika::components::boxed::Boxed;
use tuika::components::text::Text;
use tuika::geometry::{Padding, Position, Rect, Size};
use tuika::style::{BorderStyle, CodeTheme, Color, Modifier, Style, StyleBundle, StyleSheet, Theme};
use tuika::surface::Surface;
use tuika::text::{Line, Span};
use tuika::view::{RenderCtx, View};

fn at(buffer: &Buffer, x: u16, y: u16) -> &Cell {
    buffer
        .cell(Position::new(x, y))
        .expect("position out of the buffer's area")
}

fn row(buffer: &Buffer, y: u16) -> String {
    (buffer.area.x..buffer.area.right())
        .map(|x| at(buffer, x, y).symbol().to_string())
        .collect()
}

fn grid(buffer: &Buffer) -> String {
    (buffer.area.y..buffer.area.bottom())
        .map(|y| row(buffer, y))
        .collect::<Vec<_>>()
        .join("\n")
}

fn render_ctx<V: View>(view: &V, width: u16, height: u16, ctx: &RenderCtx) -> Buffer {
    let buffer = Buffer::empty(Rect::new(0, 0, width, height));
    let area = buffer.area;
    let mut surface = Surface::new(buffer, area);
    view.render(area, &mut surface, ctx);
    surface.into_buffer()
}

fn render<V: View>(view: &V, width: u16, height: u16, theme: &Theme) -> Buffer {
    render_ctx(view, width, height, &RenderCtx::new(theme))
}

fn rainbow_theme() -> Theme {
    Theme {
        text: Color::Indexed(1),
        muted: Color::Indexed(2),
        dim: Color::Indexed(3),
        accent: Color::Indexed(4),
        border: Color::Indexed(5),
        border_focused: Color::Indexed(9),
        surface: Color::Indexed(6),
        selection_bg: Color::Indexed(7),
        selection_fg: Color::Indexed(8),
        code: CodeTheme::new(),
    }
}

#[test]
fn boxed_border_closed_across_sizes() {
    let theme = Theme::default();
    for w in 2..=12u16 {
        for h in 2..=8u16 {
            let buf = render(&Boxed::new(Text::raw("x")), w, h, &theme);
            assert_eq!(at(&buf, 0, 0).symbol(), "╭", "top-left at {w}x{h}");
            assert_eq!(at(&buf, w - 1, 0).symbol(), "╮", "top-right at {w}x{h}");
            assert_eq!(at(&buf, 0, h - 1).symbol(), "╰", "bottom-left at {w}x{h}");
            assert_eq!(at(&buf, w - 1, h - 1).symbol(), "╯", "bottom-right at {w}x{h}");
        }
    }
}

#[test]
fn boxed_frames_its_child_with_padding() {
    let buf = render(&Boxed::new(Text::raw("hi")), 6, 3, &Theme::default());
    assert_eq!(grid(&buf), "╭────╮\n│ hi │\n╰────╯");
    let titled = Boxed::new(Text::raw("hi"))
        .title(Line::raw(" files "))
        .title_bottom(Line::raw(" 1/3 "));
    let buf = render(&titled, 12, 3, &Theme::default());
    assert_eq!(grid(&buf), "╭ files ───╮\n│ hi       │\n╰───── 1/3 ╯");
}

#[test]
fn explicit_padding_and_borderless_change_the_chrome() {
    let ctx = RenderCtx::new(&Theme::default());
    let zero = Boxed::new(Text::raw("x")).padding(Padding::zero());
    let size = zero.measure(Size::new(20, 20), &ctx);
    assert_eq!((size.width, size.height), (3, 3));
    let buf = render(&zero, 3, 3, &Theme::default());
    assert_eq!(at(&buf, 1, 1).symbol(), "x");
    let padded = Boxed::new(Text::raw("x")).padding(Padding::all(2));
    let size = padded.measure(Size::new(20, 20), &ctx);
    assert_eq!((size.width, size.height), (7, 7));
    let size = padded.measure(Size::new(2, 2), &ctx);
    assert_eq!((size.width, size.height), (2, 2));
    let plain = Boxed::new(Text::raw("x")).border(BorderStyle::Borderless);
    let buf = render(&plain, 3, 1, &Theme::default());
    assert_eq!(row(&buf, 0), " x ");
}

#[test]
fn bottom_title_defaults_flush_right() {
    let view = Boxed::new(Text::raw("x")).title_bottom(Line::raw(" 1/3 "));
    let buf = render(&view, 10, 3, &Theme::default());
    assert_eq!(row(&buf, 2), "╰─── 1/3 ╯");
}

#[test]
fn bottom_title_honors_explicit_alignment() {
    let view = Boxed::new(Text::raw("x")).title_bottom(Line::raw("ab").left_aligned());
    let buf = render(&view, 10, 3, &Theme::default());
    assert_eq!(row(&buf, 2), "╰ab──────╯");
}

#[test]
fn top_title_honors_center_alignment() {
    let view = Boxed::new(Text::raw("x")).title(Line::raw("ab").centered());
    let buf = render(&view, 10, 3, &Theme::default());
    assert_eq!(row(&buf, 0), "╭───ab───╮");
}

#[test]
fn oversized_bottom_title_is_truncated() {
    let view = Boxed::new(Text::raw("x")).title_bottom(Line::raw("a title far too wide"));
    let buf = render(&view, 6, 3, &Theme::default());
    assert_eq!(row(&buf, 2), "╰a ti╯");
}

#[test]
fn title_composes_line_style_under_span_style() {
    let title = Line::from_spans(vec![
        Span::raw("a"),
        Span::styled("b", Style::default().fg(Color::Blue)),
    ])
    .with_style(Style::default().fg(Color::Red).add_modifier(Modifier::bold()));
    let view = Boxed::new(Text::raw("x")).title(title);
    let buf = render(&view, 6, 3, &Theme::default());
    assert_eq!(at(&buf, 1, 0).fg, Color::Red);
    assert_eq!(at(&buf, 2, 0).fg, Color::Blue);
    assert!(at(&buf, 1, 0).modifier.contains(Modifier::bold()));
    assert!(at(&buf, 2, 0).modifier.contains(Modifier::bold()));
}

#[test]
fn boxed_border_follows_theme_focus_color() {
    let t = rainbow_theme();
    let make = |focused: bool| {
        let ctx = RenderCtx::new(&t).with_focus(focused);
        let buf = render_ctx(&Boxed::new(Text::raw("x")), 8, 3, &ctx);
        at(&buf, 0, 0).fg
    };
    assert_eq!(make(false), t.border, "unfocused border uses theme.border");
    assert_eq!(make(true), t.border_focused, "focused border uses theme.border_focused");
}

#[test]
fn explicit_border_color_overrides_theme_and_focus() {
    let t = rainbow_theme();
    let make = |focused: bool| {
        let ctx = RenderCtx::new(&t).with_focus(focused);
        let boxed = Boxed::new(Text::raw("x")).border_color(Color::Indexed(201));
        let buf = render_ctx(&boxed, 8, 3, &ctx);
        at(&buf, 0, 0).fg
    };
    assert_eq!(make(false), Color::Indexed(201));
    assert_eq!(make(true), Color::Indexed(201));
    assert_ne!(Color::Indexed(201), t.border);
    assert_ne!(Color::Indexed(201), t.border_focused);
}

#[test]
fn swapping_theme_restyles_the_same_tree() {
    let render_border = |theme: &Theme| {
        let buf = render(&Boxed::new(Text::raw("x")), 8, 3, theme);
        at(&buf, 0, 0).fg
    };
    let a = Theme {
        border: Color::Indexed(21),
        ..rainbow_theme()
    };
    let b = Theme {
        border: Color::Indexed(99),
        ..rainbow_theme()
    };
    assert_eq!(render_border(&a), Color::Indexed(21));
    assert_eq!(render_border(&b), Color::Indexed(99));
    assert_ne!(render_border(&a), render_border(&b), "theme swap must restyle");
}

#[test]
fn explicit_background_fills_the_box() {
    let t = rainbow_theme();
    let view = Boxed::new(Text::raw("x")).background(Style::default().bg(t.selection_bg));
    let buf = render(&view, 8, 3, &t);
    assert_eq!(at(&buf, 1, 1).bg, t.selection_bg, "inline style fills the interior");
}

#[test]
fn stylesheet_padding_affects_measurement_and_render_with_instance_precedence() {
    let theme = Theme::default();
    let sheet = StyleSheet {
        panel: StyleBundle::new().padding(Padding::all(2)),
        ..StyleSheet::from_theme(&theme)
    };
    let ctx = RenderCtx::new(&theme).with_sheet(sheet);
    let styled = Boxed::new(Text::raw("x"));
    assert_eq!(styled.measure(Size::new(20, 20), &ctx), Size::new(7, 7));

    let buf = render_ctx(&styled, 7, 7, &ctx);
    assert_eq!(at(&buf, 3, 3).symbol(), "x");

    let explicit = Boxed::new(Text::raw("x")).padding(Padding::zero());
    assert_eq!(explicit.measure(Size::new(20, 20), &ctx), Size::new(3, 3));
    let buf = render_ctx(&explicit, 3, 3, &ctx);
    assert_eq!(at(&buf, 1, 1).symbol(), "x");

    let oversized_sheet = StyleSheet {
        panel: StyleBundle::new().padding(Padding::all(u16::MAX)),
        ..StyleSheet::from_theme(&theme)
    };
    let oversized_ctx = RenderCtx::new(&theme).with_sheet(oversized_sheet);
    assert_eq!(styled.measure(Size::new(2, 2), &oversized_ctx), Size::new(2, 2));
}

#[test]
fn stylesheet_panel_recolors_border_and_fills_background() {
    let t = rainbow_theme();
    let sheet = StyleSheet {
        panel: StyleBundle::new().fg(t.accent).bg(t.surface),
        ..StyleSheet::from_theme(&t)
    };
    let ctx = RenderCtx::new(&t).with_sheet(sheet);
    let buf = render_ctx(&Boxed::new(Text::raw("x")), 8, 3, &ctx);
    assert_eq!(at(&buf, 0, 0).fg, t.accent, "sheet recolors the border");
    assert_ne!(t.accent, t.border, "guard: the sheet color is distinct");
    assert_eq!(at(&buf, 1, 1).bg, t.surface, "sheet fills the panel background");
}

#[test]
fn explicit_background_overrides_the_sheet_panel_fill() {
    let t = rainbow_theme();
    let sheet = StyleSheet {
        panel: StyleBundle::new().bg(t.surface),
        ..StyleSheet::from_theme(&t)
    };
    let ctx = RenderCtx::new(&t).with_sheet(sheet);
    let boxed = Boxed::new(Text::raw("x")).background(Style::new().bg(t.selection_bg));
    let buf = render_ctx(&boxed, 8, 3, &ctx);
    assert_eq!(at(&buf, 1, 1).bg, t.selection_bg, "inline style beats the sheet");
}
