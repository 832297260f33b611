use tuika::buffer::{Buffer, Cell};
use tuika::components::scroll::{Scroll, ScrollState};
use tuika::event::{Event, InputOutcome, Key, KeyCode, Mouse, MouseKind};
use tuika::geometry::{Position, Rect};
use tuika::style::{CodeTheme, Color, Style, Theme};
use tuika::surface::Surface;
use tuika::text::{Line, Span};
use tuika::view::{RenderCtx, View};

fn at(buffer: &Buffer, x: u16, y: u16) -> &Cell {
    buffer
        .cell(Position::new(x, y))
        .expect("position out of the buffer's area")
}

fn row(buffer: &Buffer, y: u16) -> String {
    (buffer.area.x..buffer.area.right())
        .map(|x| at(buffer, x, y).symbol().to_string())
        .collect()
}

fn grid(buffer: &Buffer) -> String {
    (buffer.area.y..buffer.area.bottom())
        .map(|y| row(buffer, y))
        .collect::<Vec<_>>()
        .join("\n")
}

fn render<V: View>(view: &V, width: u16, height: u16, theme: &Theme) -> Buffer {
    let buffer = Buffer::empty(Rect::new(0, 0, width, height));
    let area = buffer.area;
    let mut surface = Surface::new(buffer, area);
    view.render(area, &mut surface, &RenderCtx::new(theme));
    surface.into_buffer()
}

fn rainbow_theme() -> Theme {
    Theme {
        text: Color::Indexed(1),
        muted: Color::Indexed(2),
        dim: Color::Indexed(3),
        accent: Color::Indexed(4),
        border: Color::Indexed(5),
        border_focused: Color::Indexed(9),
        surface: Color::Indexed(6),
        selection_bg: Color::Indexed(7),
        selection_fg: Color::Indexed(8),
        code: CodeTheme::new(),
    }
}

fn numbered(n: usize, prefix: &str) -> Vec<Line> {
    (0..n).map(|i| Line::raw(&format!("{prefix}{i}"))).collect()
}

#[test]
fn scroll_sticks_to_bottom_until_scrolled_up() {
    let mut s = ScrollState::new();
    s.clamp(100, 10);
    assert_eq!(s.offset(), 90);
    assert!(s.is_stuck_to_bottom());

    let up = Event::Mouse(Mouse::at(MouseKind::ScrollUp, 0, 0));
    assert_eq!(s.handle(&up, 100, 10), InputOutcome::Changed);
    assert!(!s.is_stuck_to_bottom());
    assert_eq!(s.offset(), 87);

    s.clamp(200, 10);
    assert_eq!(s.offset(), 87);
}

#[test]
fn scroll_offset_survives_content_taller_than_u16() {
    let content_h = u16::MAX as usize + 5_000;
    let viewport_h = 40;
    let mut s = ScrollState::new();
    s.clamp(content_h, viewport_h);
    assert_eq!(s.offset(), content_h - viewport_h);
    assert!(s.is_stuck_to_bottom());

    let up = Event::Key(Key::new(KeyCode::PageUp));
    assert_eq!(s.handle(&up, content_h, viewport_h), InputOutcome::Changed);
    assert!(!s.is_stuck_to_bottom());
    assert_eq!(s.offset(), content_h - viewport_h - (viewport_h - 1));
}

#[test]
fn set_offset_positions_view_and_detaches_stick() {
    let mut s = ScrollState::new();
    s.clamp(100, 10);
    assert!(s.is_stuck_to_bottom(), "starts stuck to bottom");
    s.set_offset(40);
    assert!(!s.is_stuck_to_bottom());
    s.clamp(100, 10);
    assert_eq!(s.offset(), 40);
    s.set_offset(500);
    s.clamp(100, 10);
    assert_eq!(s.offset(), 90, "clamped to content height - viewport");
}

#[test]
fn scroll_wraps_at_render_width_before_windowing() {
    let mut state = ScrollState::new();
    state.jump_to_top();
    let scroll = Scroll::new(
        vec![Line::styled("the quick brown fox", Style::default().fg(Color::Blue))],
        &state,
    )
    .wrap(true)
    .scrollbar(false);
    let buf = render(&scroll, 9, 3, &Theme::default());
    assert_eq!(grid(&buf), "the quick\nbrown fox\n         ");
    assert_eq!(at(&buf, 0, 1).fg, Color::Blue);
}

#[test]
fn horizontal_pan_offset_clamp_and_max() {
    let mut s = ScrollState::new();
    assert_eq!(s.x_offset(), 0, "no pan by default");
    s.set_x_offset(34);
    assert_eq!(s.x_offset(), 34);
    s.clamp_x(30, 10);
    assert_eq!(s.x_offset(), 20);
    s.clamp_x(30, 10);
    assert_eq!(s.x_offset(), 20);
    assert_eq!(ScrollState::max_offset(100, 10), 90);
    assert_eq!(ScrollState::max_offset(5, 10), 0, "floors at zero");
    assert_eq!(ScrollState::max_x_offset(30, 10), 20);
}

#[test]
fn scroll_view_pans_long_lines_horizontally() {
    let mut state = ScrollState::new();
    state.set_x_offset(3);
    let scroll = Scroll::new(vec![Line::raw("0123456789")], &state);
    let buf = render(&scroll, 5, 1, &Theme::default());
    assert_eq!(row(&buf, 0), "34567");
}

#[test]
fn horizontal_pan_is_width_aware_across_spans() {
    let mut state = ScrollState::new();
    state.set_x_offset(3);
    let line = Line::from_spans(vec![Span::raw("aa你"), Span::raw("好bb")]);
    let scroll = Scroll::new(vec![line], &state);
    let buf = render(&scroll, 6, 1, &Theme::default());
    let rendered = row(&buf, 0);
    assert!(rendered.contains("好"), "resumes at the next whole glyph: {rendered:?}");
    assert!(rendered.contains("bb"), "pan carried across spans: {rendered:?}");
    assert!(!rendered.contains("你"), "straddling wide glyph dropped: {rendered:?}");
}

#[test]
fn scrolling_back_to_the_bottom_resumes_following() {
    let mut s = ScrollState::new();
    s.clamp(100, 10);
    assert_eq!(s.offset(), 90);

    let up = Event::Mouse(Mouse::at(MouseKind::ScrollUp, 0, 0));
    let _ = s.handle(&up, 100, 10);
    let _ = s.handle(&up, 100, 10);
    assert_eq!(s.offset(), 84);
    assert!(!s.is_stuck_to_bottom());

    s.clamp(130, 10);
    assert_eq!(s.offset(), 84, "content growth must not yank a reader back");

    let down = Event::Key(Key::new(KeyCode::PageDown));
    for _ in 0..8 {
        if s.is_stuck_to_bottom() {
            break;
        }
        let _ = s.handle(&down, 130, 10);
    }
    assert!(s.is_stuck_to_bottom(), "reaching the bottom resumes following");
    assert_eq!(s.offset(), 120);

    s.clamp(160, 10);
    assert_eq!(s.offset(), 150);
}

#[test]
fn scroll_end_key_rearms_bottom_stick() {
    let mut s = ScrollState::new();
    s.clamp(100, 10);
    s.jump_to_top();
    assert_eq!(s.offset(), 0);
    assert!(!s.is_stuck_to_bottom());
    let end = Event::Key(Key::new(KeyCode::End));
    assert_eq!(s.handle(&end, 100, 10), InputOutcome::Changed);
    assert_eq!(s.offset(), 90);
    assert!(s.is_stuck_to_bottom());
}

#[test]
fn scroll_view_windows_content_and_draws_scrollbar() {
    let mut state = ScrollState::new();
    state.clamp(20, 5);
    let scroll = Scroll::new(numbered(20, "line"), &state);
    let buf = render(&scroll, 10, 5, &Theme::default());
    assert!(row(&buf, 0).starts_with("line15"));
    assert!(row(&buf, 4).starts_with("line19"));
    let has_bar = (0..5).any(|y| {
        let c = at(&buf, 9, y).symbol().to_string();
        c == "█" || c == "│"
    });
    assert!(has_bar, "expected a scrollbar in the right column");
}

#[test]
fn scroll_windowed_matches_full_render() {
    let content = numbered(1000, "line");
    let (width, height) = (12u16, 6u16);
    let theme = Theme::default();

    let mut state = ScrollState::new();
    state.clamp(content.len(), height as usize);
    state.jump_to_top();
    let end = Event::Key(Key::new(KeyCode::PageDown));
    let _ = state.handle(&end, content.len(), height as usize);
    let offset = state.offset();
    assert!(offset > 0 && offset < content.len() - height as usize);

    let full = render(&Scroll::new(content.clone(), &state), width, height, &theme);
    let window = content[offset..offset + height as usize].to_vec();
    let windowed = render(&Scroll::windowed(window, content.len(), &state), width, height, &theme);

    assert_eq!(
        full.content, windowed.content,
        "windowed render diverged from the full render"
    );
}

#[test]
fn scrollbar_thumb_and_track_use_theme() {
    let t = rainbow_theme();
    let mut state = ScrollState::new();
    state.clamp(30, 5);
    let scroll = Scroll::new(numbered(30, "l"), &state);
    let buf = render(&scroll, 10, 5, &t);
    let fgs: Vec<Color> = (0..5).map(|y| at(&buf, 9, y).fg).collect();
    assert!(fgs.contains(&t.muted), "thumb uses theme.muted: {fgs:?}");
    assert!(fgs.contains(&t.dim), "track uses theme.dim: {fgs:?}");
}
