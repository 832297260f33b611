use tuika::buffer::{Buffer, Cell};
use tuika::components::select::{
    MultiSelectState, SelectList, SelectNavigation, SelectState, SelectViewportState,
};
use tuika::components::window::SelectionAnchor;
use tuika::event::{Event, InputOutcome, Key, KeyCode, Mouse, MouseButton, MouseKind};
use tuika::geometry::{Position, Rect, Size};
use tuika::style::{CodeTheme, Color, Modifier, Style, Theme};
use tuika::surface::Surface;
use tuika::text::Line;
use tuika::view::{RenderCtx, View};

fn at(buffer: &Buffer, x: u16, y: u16) -> &Cell {
    buffer
        .cell(Position::new(x, y))
        .expect("position out of the buffer's area")
}

fn row(buffer: &Buffer, y: u16) -> String {
    (buffer.area.x..buffer.area.right())
        .map(|x| at(buffer, x, y).symbol().to_string())
        .collect()
}

fn grid(buffer: &Buffer) -> String {
    (buffer.area.y..buffer.area.bottom())
        .map(|y| row(buffer, y))
        .collect::<Vec<_>>()
        .join("\n")
}

fn render<V: View>(view: &V, width: u16, height: u16, theme: &Theme) -> Buffer {
    let buffer = Buffer::empty(Rect::new(0, 0, width, height));
    let area = buffer.area;
    let mut surface = Surface::new(buffer, area);
    view.render(area, &mut surface, &RenderCtx::new(theme));
    surface.into_buffer()
}

/// A theme whose every slot is a different color.
fn rainbow_theme() -> Theme {
    Theme {
        text: Color::Indexed(1),
        muted: Color::Indexed(2),
        dim: Color::Indexed(3),
        accent: Color::Indexed(4),
        border: Color::Indexed(5),
        border_focused: Color::Indexed(9),
        surface: Color::Indexed(6),
        selection_bg: Color::Indexed(7),
        selection_fg: Color::Indexed(8),
        code: CodeTheme::new(),
    }
}

fn key(code: KeyCode) -> Event {
    Event::Key(Key::new(code))
}

fn items(n: usize, prefix: &str) -> Vec<Line> {
    (0..n).map(|i| Line::raw(&format!("{prefix}{i}"))).collect()
}

#[test]
fn select_navigation_wraps_and_confirms() {
    let mut s = SelectState::new();
    let down = key(KeyCode::Down);
    let up = key(KeyCode::Up);
    assert_eq!(s.handle(&up, 3), InputOutcome::Changed);
    assert_eq!(s.selected(), Some(2));
    assert_eq!(s.handle(&down, 3), InputOutcome::Changed);
    assert_eq!(s.selected(), Some(0));
    assert_eq!(s.handle(&key(KeyCode::Enter), 3), InputOutcome::Submitted);
    assert_eq!(s.handle(&key(KeyCode::Esc), 3), InputOutcome::Cancelled);
}

#[test]
fn common_navigation_supports_vim_ctrl_tab_and_numbers() {
    let policy = SelectNavigation::common();
    let mut state = SelectState::new();
    assert_eq!(
        state.handle_with(&key(KeyCode::Char('j')), 4, policy),
        InputOutcome::Changed
    );
    assert_eq!(state.selected(), Some(1));
    assert_eq!(
        state.handle_with(
            &Event::Key(Key {
                code: KeyCode::Char('p'),
                ctrl: true,
                alt: false,
                shift: false
            }),
            4,
            policy
        ),
        InputOutcome::Changed
    );
    assert_eq!(state.selected(), Some(0));
    assert_eq!(
        state.handle_with(&key(KeyCode::BackTab), 4, policy),
        InputOutcome::Changed
    );
    assert_eq!(state.selected(), Some(3));
    assert_eq!(
        state.handle_with(&key(KeyCode::Char('2')), 4, policy),
        InputOutcome::Submitted
    );
    assert_eq!(state.selected(), Some(1));
}

#[test]
fn default_navigation_does_not_claim_optional_aliases() {
    let mut state = SelectState::new();
    for code in [KeyCode::Char('j'), KeyCode::Tab, KeyCode::Char('1')] {
        assert_eq!(
            state.handle_with(&key(code), 3, SelectNavigation::default()),
            InputOutcome::Ignored
        );
    }
    assert_eq!(state.selected(), Some(0));
}

#[test]
fn mouse_hit_testing_respects_bounds_and_scroll_offset() {
    let mut state = SelectState::new();
    let bounds = Rect::new(10, 5, 20, 3);
    let click = Event::Mouse(Mouse::at(MouseKind::Down(MouseButton::Left), 12, 6));
    assert_eq!(
        state.handle_mouse(&click, 10, bounds, 4),
        InputOutcome::Submitted
    );
    assert_eq!(state.selected(), Some(5));

    let outside = Event::Mouse(Mouse::at(MouseKind::Down(MouseButton::Left), 9, 6));
    assert_eq!(
        state.handle_mouse(&outside, 10, bounds, 4),
        InputOutcome::Ignored
    );
}

#[test]
fn multi_select_toggles_without_losing_cursor_navigation() {
    let mut state = MultiSelectState::new();
    let policy = SelectNavigation::common();
    assert_eq!(
        state.handle(&key(KeyCode::Char(' ')), 3, policy),
        InputOutcome::Changed
    );
    assert!(state.contains(0));
    assert_eq!(
        state.handle(&key(KeyCode::Char('j')), 3, policy),
        InputOutcome::Changed
    );
    assert_eq!(
        state.handle(&key(KeyCode::Enter), 3, policy),
        InputOutcome::Changed
    );
    assert_eq!(state.selected(), vec![0, 1]);
    assert_eq!(
        state.handle(&key(KeyCode::Char('1')), 3, policy),
        InputOutcome::Changed
    );
    assert_eq!(state.selected(), vec![1]);
}

#[test]
fn select_move_up_down_clamp_at_ends() {
    let mut s = SelectState::new();
    s.move_down(3);
    assert_eq!(s.selected(), Some(1));
    s.move_down(3);
    assert_eq!(s.selected(), Some(2));
    s.move_down(3);
    assert_eq!(s.selected(), Some(2));
    s.move_up();
    assert_eq!(s.selected(), Some(1));
    s.move_up();
    s.move_up();
    assert_eq!(s.selected(), Some(0));
    s.move_down(0);
    assert_eq!(s.selected(), None);
}

#[test]
fn select_state_select_sets_index_directly() {
    let mut s = SelectState::new();
    s.select(Some(2));
    assert_eq!(s.selected(), Some(2));
}

#[test]
fn select_state_and_list_support_no_selection() {
    assert_eq!(SelectState::default().selected(), Some(0));
    let mut state = SelectState::unselected();
    assert_eq!(state.selected(), None);
    assert_eq!(
        state.handle(&key(KeyCode::Enter), 2),
        InputOutcome::Ignored
    );

    let list = SelectList::new(vec![Line::raw("a"), Line::raw("b")], &state);
    let theme = Theme::default();
    let buf = render(&list, 5, 2, &theme);
    assert!((0..2).all(|y| at(&buf, 0, y).symbol() == " "));
    assert!((0..2).all(|y| at(&buf, 0, y).bg != theme.selection_bg));
}

#[test]
fn select_list_accepts_an_instance_selection_style() {
    let state = SelectState::new();
    let style = Style::default().fg(Color::Blue);
    let list = SelectList::new(vec![Line::raw("a")], &state).selection_style(style);
    let buf = render(&list, 5, 1, &Theme::default());
    assert_eq!(at(&buf, 0, 0).fg, Color::Blue);
    assert!(!at(&buf, 0, 0).modifier.contains(Modifier::bold()));
}

#[test]
fn select_highlights_current_row() {
    let items = vec![Line::raw("alpha"), Line::raw("beta")];
    let mut state = SelectState::new();
    let _ = state.handle(&key(KeyCode::Down), 2);
    let list = SelectList::new(items, &state);
    let theme = Theme::default();
    let buf = render(&list, 10, 2, &theme);
    assert!(row(&buf, 1).contains("beta"));
    assert_eq!(at(&buf, 0, 1).bg, theme.selection_bg);
    assert_eq!(at(&buf, 0, 0).bg, Color::Reset);
}

#[test]
fn select_viewport_windows_a_long_list_and_keeps_selection_visible() {
    let mut state = SelectState::new();
    state.select(Some(12));
    let theme = Theme::default();
    let ctx = RenderCtx::new(&theme);
    let list = SelectList::new(items(20, "item"), &state).viewport(4);
    assert_eq!(list.measure(Size::new(20, 40), &ctx).height, 4);
    let rendered = render(&list, 20, 4, &theme);
    let text = grid(&rendered);
    assert!(text.contains("item12"), "selection should be visible:\n{text}");
    assert!(
        !text.contains("item0\n") && !text.contains("item19"),
        "far items windowed out"
    );
    let has_scrollbar = (0..4).any(|y| matches!(at(&rendered, 19, y).symbol(), "█" | "│"));
    assert!(has_scrollbar, "overflowing list should draw a scrollbar:\n{text}");
}

#[test]
fn select_list_edge_anchor_trails_the_selection_instead_of_centering() {
    let mut state = SelectState::new();
    state.select(Some(7));
    let list = |anchor: SelectionAnchor| {
        SelectList::new(items(20, "item"), &state)
            .viewport(5)
            .selection_anchor(anchor)
            .window(Some(5))
            .range()
    };
    assert_eq!(list(SelectionAnchor::Edge), 3..8);
    assert_eq!(list(SelectionAnchor::Center), 5..10);

    let edge = SelectList::new(items(20, "item"), &state)
        .viewport(5)
        .selection_anchor(SelectionAnchor::Edge);
    let text = grid(&render(&edge, 12, 5, &Theme::default()));
    assert!(text.contains("item3"), "top of the edge window:\n{text}");
    assert!(text.contains("item7"), "selection stays visible:\n{text}");
    assert!(!text.contains("item9"), "below the edge window:\n{text}");
}

#[test]
fn render_height_smaller_than_viewport_keeps_selection_visible() {
    let mut state = SelectState::new();
    state.select(Some(15));
    let list = SelectList::new(items(20, "item"), &state).viewport(10);
    let text = grid(&render(&list, 12, 3, &Theme::default()));
    assert!(text.contains("item15"), "selection should be visible:\n{text}");
}

#[test]
fn select_viewport_shows_whole_list_when_it_fits() {
    let state = SelectState::new();
    let list = SelectList::new(items(3, "item"), &state).viewport(8);
    let theme = Theme::default();
    assert_eq!(
        list.measure(Size::new(20, 40), &RenderCtx::new(&theme)).height,
        3
    );
    let text = grid(&render(&list, 20, 3, &theme));
    assert!(text.contains("item0") && text.contains("item2"));
}

#[test]
fn persistent_viewport_bottom_click_uses_rendered_window_without_recentering() {
    let mut state = SelectViewportState::new();
    state.select(Some(10));
    let window = state.resolve(20, 4);
    assert_eq!(window.range(), 7..11);

    let click = Event::Mouse(Mouse::at(MouseKind::Down(MouseButton::Left), 2, 3));
    assert_eq!(
        state.handle_mouse(&click, 20, Rect::new(0, 0, 12, 4), window),
        InputOutcome::Submitted
    );
    assert_eq!(state.selected(), Some(10));
    assert_eq!(state.resolve(20, 4).range(), 7..11);
}

#[test]
fn persistent_viewport_moves_only_across_each_keyboard_edge() {
    let mut state = SelectViewportState::new();
    let down = key(KeyCode::Down);
    for _ in 0..3 {
        assert_eq!(state.handle(&down, 10, 4), InputOutcome::Changed);
    }
    assert_eq!(state.resolve(10, 4).range(), 0..4);
    assert_eq!(state.handle(&down, 10, 4), InputOutcome::Changed);
    assert_eq!(state.resolve(10, 4).range(), 1..5);

    let up = key(KeyCode::Up);
    assert_eq!(state.handle(&up, 10, 4), InputOutcome::Changed);
    assert_eq!(state.resolve(10, 4).range(), 1..5);
    for _ in 0..3 {
        let _ = state.handle(&up, 10, 4);
    }
    assert_eq!(state.resolve(10, 4).range(), 0..4);
}

#[test]
fn persistent_viewport_reconciles_resize_and_collection_shrink() {
    let mut state = SelectViewportState::new();
    state.select(Some(13));
    assert_eq!(state.resolve(20, 4).range(), 10..14);
    assert_eq!(state.resolve(20, 6).range(), 10..16);

    let shrunk = state.resolve(8, 6);
    assert_eq!(state.selected(), Some(7));
    assert_eq!(shrunk.range(), 2..8);
}

#[test]
fn persistent_window_drives_rows_and_scrollbar_geometry() {
    let mut state = SelectViewportState::new();
    state.set_offset(3);
    state.select(Some(4));
    let window = state.resolve(10, 4);
    let list = SelectList::new(items(10, "row"), state.selection()).visible_window(window);
    let rendered = render(&list, 8, 4, &Theme::default());
    let text = grid(&rendered);
    assert!(text.contains("row3") && text.contains("row6"), "{text}");
    assert!(!text.contains("row2") && !text.contains("row7"), "{text}");
    assert_eq!(at(&rendered, 7, 0).symbol(), "│");
    assert_eq!(at(&rendered, 7, 1).symbol(), "█");
}

#[test]
fn select_list_selection_uses_theme_slots() {
    let t = rainbow_theme();
    let mut state = SelectState::new();
    let _ = state.handle(&key(KeyCode::Down), 2);
    let list = SelectList::new(vec![Line::raw("a"), Line::raw("b")], &state);
    let buf = render(&list, 10, 2, &t);
    assert_eq!(at(&buf, 0, 1).bg, t.selection_bg, "selected row bg");
    assert_eq!(at(&buf, 0, 1).fg, t.selection_fg, "selected caret fg");
    assert_ne!(at(&buf, 0, 0).bg, t.selection_bg, "unselected row not highlighted");
}

#[test]
fn selection_anchor_center_is_the_default() {
    assert_eq!(SelectionAnchor::default(), SelectionAnchor::Center);
}
