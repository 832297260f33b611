use tuika::buffer::{Buffer, Cell};
use tuika::components::boxed::Boxed;
use tuika::components::constrained::Constrained;
use tuika::components::focus_scope::FocusScope;
use tuika::components::responsive::Responsive;
use tuika::components::text::Text;
use tuika::geometry::{Position, Rect, Size};
use tuika::style::{CodeTheme, Color, Theme};
use tuika::surface::Surface;
use tuika::view::{RenderCtx, View};

fn at(buffer: &Buffer, x: u16, y: u16) -> &Cell {
    buffer
        .cell(Position::new(x, y))
        .expect("position out of the buffer's area")
}

fn row(buffer: &Buffer, y: u16) -> String {
    (buffer.area.x..buffer.area.right())
        .map(|x| at(buffer, x, y).symbol().to_string())
        .collect()
}

fn render_ctx<V: View>(view: &V, width: u16, height: u16, ctx: &RenderCtx) -> Buffer {
    let buffer = Buffer::empty(Rect::new(0, 0, width, height));
    let area = buffer.area;
    let mut surface = Surface::new(buffer, area);
    view.render(area, &mut surface, ctx);
    surface.into_buffer()
}

fn rainbow_theme() -> Theme {
    Theme {
        text: Color::Indexed(1),
        muted: Color::Indexed(2),
        dim: Color::Indexed(3),
        accent: Color::Indexed(4),
        border: Color::Indexed(5),
        border_focused: Color::Indexed(9),
        surface: Color::Indexed(6),
        selection_bg: Color::Indexed(7),
        selection_fg: Color::Indexed(8),
        code: CodeTheme::new(),
    }
}

fn corner_color(scope_focused: bool, root_focused: bool) -> Color {
    let t = rainbow_theme();
    let ctx = RenderCtx::new(&t).with_focus(root_focused);
    let view = FocusScope::new(scope_focused, Boxed::new(Text::raw("x")));
    let buf = render_ctx(&view, 8, 3, &ctx);
    at(&buf, 0, 0).fg
}

#[test]
fn focus_scope_overrides_root_focus_for_its_subtree() {
    let t = rainbow_theme();
    assert_eq!(corner_color(true, false), t.border_focused);
    assert_eq!(corner_color(false, true), t.border);
}

#[test]
fn focus_scope_is_layout_transparent() {
    let theme = rainbow_theme();
    let ctx = RenderCtx::new(&theme);
    let inner = Boxed::new(Text::raw("hello"));
    let want = inner.measure(Size::new(40, 10), &ctx.with_focus(true));
    let scoped = FocusScope::focused(Boxed::new(Text::raw("hello")));
    let got = scoped.measure(Size::new(40, 10), &ctx);
    assert_eq!((got.width, got.height), (want.width, want.height));
}

#[test]
fn constrained_clamps_intrinsic_measurement() {
    let theme = Theme::default();
    let ctx = RenderCtx::new(&theme);
    let constrained = Constrained::new(Text::raw("long content"))
        .min_size(4, 1)
        .max_size(6, 2);
    let s = constrained.measure(Size::new(20, 10), &ctx);
    assert_eq!((s.width, s.height), (6, 1));
    let s = constrained.measure(Size::new(3, 1), &ctx);
    assert_eq!((s.width, s.height), (3, 1));
}

#[test]
fn responsive_selects_layout_from_render_width() {
    let view = Responsive::new(10, Text::raw("compact"), Text::raw("wide"));
    let ctx = RenderCtx::new(&Theme::default());
    let compact = render_ctx(&view, 8, 1, &ctx);
    let wide = render_ctx(&view, 12, 1, &ctx);
    assert_eq!(row(&compact, 0).trim_end(), "compact");
    assert_eq!(row(&wide, 0).trim_end(), "wide");
}
