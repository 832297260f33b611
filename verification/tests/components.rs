use tuika::buffer::{Buffer, Cell};
use tuika::components::ascii_font::AsciiFont;
use tuika::components::console::{Console, ConsoleLog};
use tuika::components::key_hints::{KeyHint, KeyHints};
use tuika::components::rule::Rule;
use tuika::components::spinner::{Spinner, SpinnerStyle};
use tuika::components::status_bar::StatusBar;
use tuika::components::tab_select::{TabSelect, TabSelectState};
use tuika::components::tabs::{Tabs, TabsState};
use tuika::event::{Event, InputOutcome, Key, KeyCode};
use tuika::geometry::{Position, Rect, Size};
use tuika::style::{CodeTheme, Color, Modifier, Style, Theme};
use tuika::surface::Surface;
use tuika::text::{Line, Span};
use tuika::view::{RenderCtx, View};

fn at(buffer: &Buffer, x: u16, y: u16) -> &Cell {
    buffer
        .cell(Position::new(x, y))
        .expect("position out of the buffer's area")
}

fn row(buffer: &Buffer, y: u16) -> String {
    (buffer.area.x..buffer.area.right())
        .map(|x| at(buffer, x, y).symbol().to_string())
        .collect()
}

fn render<V: View>(view: &V, width: u16, height: u16, theme: &Theme) -> Buffer {
    let buffer = Buffer::empty(Rect::new(0, 0, width, height));
    let area = buffer.area;
    let mut surface = Surface::new(buffer, area);
    view.render(area, &mut surface, &RenderCtx::new(theme));
    surface.into_buffer()
}

fn rainbow_theme() -> Theme {
    Theme {
        text: Color::Indexed(1),
        muted: Color::Indexed(2),
        dim: Color::Indexed(3),
        accent: Color::Indexed(4),
        border: Color::Indexed(5),
        border_focused: Color::Indexed(9),
        surface: Color::Indexed(6),
        selection_bg: Color::Indexed(7),
        selection_fg: Color::Indexed(8),
        code: CodeTheme::new(),
    }
}

fn key(code: KeyCode) -> Event {
    Event::Key(Key::new(code))
}

#[test]
fn navigation_changes_value_and_wraps() {
    let mut s = TabSelectState::default();
    assert_eq!(s.handle(&key(KeyCode::Right), 3), InputOutcome::Changed);
    assert_eq!(s.selected(), 1);
    assert_eq!(s.handle(&key(KeyCode::Right), 3), InputOutcome::Changed);
    assert_eq!(s.selected(), 2);
    assert_eq!(s.handle(&key(KeyCode::Right), 3), InputOutcome::Changed);
    assert_eq!(s.selected(), 0);
    assert_eq!(s.handle(&key(KeyCode::Left), 3), InputOutcome::Changed);
    assert_eq!(s.selected(), 2);
}

#[test]
fn enter_and_space_activate_without_moving() {
    let mut s = TabSelectState::with_selected(1);
    assert_eq!(s.handle(&key(KeyCode::Enter), 3), InputOutcome::Submitted);
    assert_eq!(s.handle(&key(KeyCode::Char(' ')), 3), InputOutcome::Submitted);
    assert_eq!(s.selected(), 1);
    assert_eq!(s.handle(&key(KeyCode::Char('x')), 3), InputOutcome::Ignored);
    assert_eq!(s.handle(&key(KeyCode::Up), 0), InputOutcome::Ignored);
}

#[test]
fn renders_pills_with_selected_highlight() {
    let t = rainbow_theme();
    let state = TabSelectState::with_selected(1);
    let view = TabSelect::new(
        vec![Line::raw("low"), Line::raw("mid"), Line::raw("high")],
        &state,
    );
    let buf = render(&view, 30, 1, &t);
    let line = row(&buf, 0);
    assert!(line.contains("low"));
    assert!(line.contains("mid"));
    assert!(line.contains("high"));
    let has_selection_bg = (0..buf.area.width).any(|x| at(&buf, x, 0).bg == t.selection_bg);
    assert!(has_selection_bg, "selected pill uses selection bg");
}

#[test]
fn empty_and_narrow_do_not_panic() {
    let theme = Theme::default();
    let state = TabSelectState::default();
    let _ = render(&TabSelect::new(vec![], &state), 10, 1, &theme);
    let view = TabSelect::new(vec![Line::raw("wide-label")], &state);
    let _ = render(&view, 3, 1, &theme);
}

#[test]
fn tabs_state_wraps_and_tabs_render_selection() {
    let mut state = TabsState::default();
    assert_eq!(state.handle(&key(KeyCode::Left), 3), InputOutcome::Changed);
    assert_eq!(state.selected(), 2);

    let tabs = Tabs::new(
        vec![Line::raw("one"), Line::raw("two"), Line::raw("three")],
        &state,
    );
    let rendered = render(&tabs, 20, 1, &Theme::default());
    assert!(row(&rendered, 0).contains("one  two  three"));
    assert!(at(&rendered, 10, 0).modifier.contains(Modifier::underlined()));
}

#[test]
fn spinner_cycles_frames() {
    let frames = SpinnerStyle::Braille.frames();
    assert_eq!(Spinner::new(0).glyph(), frames[0]);
    assert_eq!(Spinner::new(1).glyph(), frames[1]);
    assert_eq!(Spinner::new(frames.len() as u64).glyph(), frames[0]);
}

#[test]
fn spinner_default_color_is_theme_accent() {
    let t = rainbow_theme();
    let buf = render(&Spinner::new(0), 3, 1, &t);
    assert_eq!(at(&buf, 0, 0).fg, t.accent);
}

#[test]
fn spinner_styles_have_their_own_frames() {
    assert_eq!(SpinnerStyle::Line.frames(), &["|", "/", "-", "\\"]);
    assert_eq!(Spinner::new(5).style(SpinnerStyle::Line).glyph(), "/");
}

#[test]
fn rule_renders_title_then_fills_to_width() {
    let rule = Rule::new()
        .title(Line::from_span(Span::raw("─ hi ")))
        .style(Style::default().fg(Color::Blue));
    let buf = render(&rule, 10, 1, &Theme::default());
    assert_eq!(row(&buf, 0), "─ hi ─────");
    assert_eq!(at(&buf, 9, 0).symbol(), "─");
    assert_eq!(at(&buf, 9, 0).fg, Color::Blue);
}

#[test]
fn status_bar_background_is_theme_surface() {
    let t = rainbow_theme();
    let bar = StatusBar::new().left(vec![Span::raw("hi")]);
    let buf = render(&bar, 10, 1, &t);
    assert_eq!(at(&buf, 9, 0).bg, t.surface);
}

#[test]
fn line_capture_and_capacity() {
    let mut log = ConsoleLog::new(2);
    log.line("one");
    log.line("two");
    log.line("three");
    assert_eq!(log.snapshot(), vec!["two".to_string(), "three".to_string()]);
    assert_eq!(log.len(), 2);
}

#[test]
fn write_splits_on_newlines_and_holds_partials() {
    let mut log = ConsoleLog::new(10);
    log.write_str("hel");
    log.write_str("lo\nwor");
    assert_eq!(log.snapshot(), vec!["hello".to_string()]);
    log.write_str("ld\n");
    assert_eq!(
        log.snapshot(),
        vec!["hello".to_string(), "world".to_string()]
    );
    log.write_str("crlf\r\n");
    assert_eq!(log.snapshot().last().unwrap(), "crlf");
}

#[test]
fn console_tails_and_titles() {
    let theme = Theme::default();
    let mut log = ConsoleLog::new(100);
    for i in 0..10 {
        log.line(&format!("line{i}"));
    }
    let view = Console::new(&log).title(" console ");
    let buf = render(&view, 20, 4, &theme);
    assert!(row(&buf, 0).contains("console"), "title row");
    assert!(row(&buf, 1).contains("line7"));
    assert!(row(&buf, 3).contains("line9"), "newest at the bottom");
}

#[test]
fn console_empty_and_tiny_do_not_panic() {
    let theme = Theme::default();
    let log = ConsoleLog::new(10);
    for (w, h) in [(0u16, 0u16), (1, 1), (5, 1)] {
        let _ = render(&Console::new(&log).title("x"), w, h, &theme);
    }
}

#[test]
fn console_clear_empties_the_ring() {
    let mut log = ConsoleLog::new(10);
    log.line("a\nb");
    assert_eq!(log.len(), 2);
    log.clear();
    assert!(log.is_empty());
}

#[test]
fn measures_five_rows_and_summed_width() {
    let font = AsciiFont::new("HI");
    let theme = Theme::default();
    let ctx = RenderCtx::new(&theme);
    let size = font.measure(Size::new(80, 24), &ctx);
    assert_eq!((size.width, size.height), (11, 5));
    assert_eq!(AsciiFont::new("").measure(Size::new(80, 24), &ctx).height, 0);
}

#[test]
fn renders_block_glyphs_case_insensitively() {
    let theme = Theme::default();
    let buf = render(&AsciiFont::new("a"), 6, 5, &theme);
    let filled: usize = (0..5)
        .map(|y| row(&buf, y).chars().filter(|&c| c == '█').count())
        .sum();
    assert!(filled > 0, "at least some pixels painted");
    assert_eq!(row(&buf, 0).matches('█').count(), 3);
}

#[test]
fn color_defaults_to_accent_and_is_overridable() {
    let t = rainbow_theme();
    let buf = render(&AsciiFont::new("I"), 6, 5, &t);
    assert_eq!(at(&buf, 0, 0).fg, t.accent);

    let custom = Color::Rgb(1, 2, 3);
    let buf = render(&AsciiFont::new("I").color(custom), 6, 5, &t);
    assert_eq!(at(&buf, 0, 0).fg, custom);
}

#[test]
fn unknown_chars_and_tiny_areas_do_not_panic() {
    let theme = Theme::default();
    let _ = render(&AsciiFont::new("~"), 10, 5, &theme);
    for (w, h) in [(0u16, 0u16), (1, 1), (2, 3)] {
        let _ = render(&AsciiFont::new("HELLO 123"), w, h, &theme);
    }
}

#[test]
fn banner_width_skips_unknown_characters() {
    // 'A' (5) + space (3) + '!' (1), two spacing columns; '~' has no glyph.
    assert_eq!(AsciiFont::new("a ~!").total_width(), 11);
    assert_eq!(AsciiFont::new("~~").total_width(), 0);
}

#[test]
fn key_hints_measure_unicode_by_terminal_width() {
    let hints = KeyHints::new(&[("⌘", "開く")]);
    let theme = Theme::default();
    let s = hints.measure(Size::new(20, 1), &RenderCtx::new(&theme));
    assert_eq!((s.width, s.height), (8, 1));
}

#[test]
fn narrow_hints_keep_whole_high_priority_items() {
    let hints = KeyHints::prioritized(vec![
        KeyHint::new("A", "alpha"),
        KeyHint::new("Q", "quit").priority(10),
        KeyHint::new("?", "help").priority(5),
    ]);
    assert_eq!(row(&render(&hints, 18, 1, &Theme::default()), 0), " Q  quit   ?  help");
    assert_eq!(row(&render(&hints, 8, 1, &Theme::default()), 0), " Q  quit");
    assert_eq!(row(&render(&hints, 3, 1, &Theme::default()), 0), "   ");
}

#[test]
fn fitted_hints_keep_declaration_order_and_priority() {
    let hints = KeyHints::prioritized(vec![
        KeyHint::new("A", "alpha").priority(1),
        KeyHint::new("B", "beta"),
        KeyHint::new("C", "gamma").priority(1),
    ]);
    // Each hint is 9 columns; two fit in 20 (9 + 2 + 9), the two priority-1
    // hints, shown in declaration order.
    assert_eq!(hints.fitted(20), vec![0, 2]);
    assert_eq!(hints.fitted(100), vec![0, 1, 2]);
    // Neither 9-column hint fits in 8, but the lower-priority 8-column one does.
    assert_eq!(hints.fitted(8), vec![1]);
    assert_eq!(hints.fitted(7), Vec::<usize>::new());
}
