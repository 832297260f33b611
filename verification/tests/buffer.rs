use tuika::buffer::{Buffer, Cell, CellDiffOption, NonZeroWidth};
use tuika::geometry::{Position, Rect};
use tuika::style::{Color, Style};
use tuika::text::Line;

fn at(buffer: &Buffer, x: u16, y: u16) -> &Cell {
    buffer
        .cell(Position::new(x, y))
        .expect("position out of the buffer's area")
}

fn at_mut(buffer: &mut Buffer, x: u16, y: u16) -> &mut Cell {
    buffer
        .cell_mut(Position::new(x, y))
        .expect("position out of the buffer's area")
}

fn row(buffer: &Buffer, y: u16) -> String {
    (buffer.area.x..buffer.area.right())
        .map(|x| at(buffer, x, y).symbol().to_string())
        .collect()
}

#[test]
fn empty_cells_render_as_spaces() {
    let buffer = Buffer::empty(Rect::new(0, 0, 3, 1));
    assert_eq!(row(&buffer, 0), "   ");
}

#[test]
fn set_string_writes_and_returns_the_next_column() {
    let mut buffer = Buffer::empty(Rect::new(0, 0, 6, 1));
    let next = buffer.set_string(1, 0, "abc", Style::default());
    assert_eq!(next, 4);
    assert_eq!(row(&buffer, 0), " abc  ");
}

#[test]
fn a_wide_grapheme_blanks_its_trailing_cell() {
    let mut buffer = Buffer::empty(Rect::new(0, 0, 4, 1));
    buffer.set_string(0, 0, "日本", Style::default());
    assert_eq!(at(&buffer, 0, 0).symbol(), "日");
    assert_eq!(at(&buffer, 1, 0).raw_symbol(), "");
    assert_eq!(at(&buffer, 2, 0).symbol(), "本");
    assert_eq!(at(&buffer, 3, 0).raw_symbol(), "");
}

#[test]
fn a_wide_grapheme_that_does_not_fit_is_dropped() {
    let mut buffer = Buffer::empty(Rect::new(0, 0, 3, 1));
    let (next, used) = buffer.set_stringn(0, 0, "a日", 2, Style::default());
    assert_eq!(used, 1, "only the narrow grapheme fits in two columns");
    assert_eq!(next, 1);
    assert_eq!(at(&buffer, 1, 0).symbol(), " ");
}

#[test]
fn set_string_clips_at_the_area_edge() {
    let mut buffer = Buffer::empty(Rect::new(0, 0, 3, 1));
    buffer.set_string(1, 0, "abcdef", Style::default());
    assert_eq!(row(&buffer, 0), " ab");
}

#[test]
fn zero_width_clusters_consume_no_columns() {
    let mut buffer = Buffer::empty(Rect::new(0, 0, 4, 1));
    let (next, used) = buffer.set_stringn(0, 0, "a\u{0301}b", 4, Style::default());
    assert_eq!(used, 2, "the combining acute joins its base grapheme");
    assert_eq!(next, 2);
}

#[test]
fn indexing_uses_absolute_coordinates() {
    let mut buffer = Buffer::empty(Rect::new(5, 5, 2, 2));
    at_mut(&mut buffer, 5, 5).set_char('x');
    assert_eq!(at(&buffer, 5, 5).symbol(), "x");
    assert!(buffer.cell(Position::new(0, 0)).is_none(), "outside the area");
}

#[test]
fn an_unchanged_frame_diffs_to_nothing() {
    let buffer = Buffer::empty(Rect::new(0, 0, 4, 2));
    assert!(buffer.diff(&buffer.clone()).is_empty());
}

#[test]
fn diff_yields_only_changed_cells() {
    let previous = Buffer::empty(Rect::new(0, 0, 4, 1));
    let mut next = previous.clone();
    at_mut(&mut next, 2, 0).set_char('x');
    let updates = previous.diff(&next);
    assert_eq!(updates.len(), 1);
    assert_eq!((updates[0].0, updates[0].1), (2, 0));
}

#[test]
fn a_skipped_cell_is_never_emitted() {
    let previous = Buffer::empty(Rect::new(0, 0, 3, 1));
    let mut next = previous.clone();
    at_mut(&mut next, 1, 0).set_char('x');
    at_mut(&mut next, 1, 0).set_diff_option(CellDiffOption::Skip);
    assert!(previous.diff(&next).is_empty());
}

#[test]
fn always_update_emits_an_unchanged_cell() {
    let previous = Buffer::empty(Rect::new(0, 0, 2, 1));
    let mut next = previous.clone();
    at_mut(&mut next, 0, 0).set_diff_option(CellDiffOption::AlwaysUpdate);
    let updates = previous.diff(&next);
    assert_eq!(updates.len(), 1);
}

#[test]
fn forced_width_bills_the_declared_columns() {
    let previous = Buffer::empty(Rect::new(0, 0, 3, 1));
    let mut next = previous.clone();
    at_mut(&mut next, 0, 0).set_symbol("\u{1b}]8;;http://x\u{1b}\\a");
    at_mut(&mut next, 0, 0).set_diff_option(CellDiffOption::ForcedWidth(NonZeroWidth::new(1).unwrap()));
    let updates = previous.diff(&next);
    assert_eq!(updates.len(), 1);
    assert_eq!(at(&next, 0, 0).cell_width(), 1);
}

#[test]
fn a_narrowed_wide_cell_refreshes_its_vacated_column() {
    let mut previous = Buffer::empty(Rect::new(0, 0, 3, 1));
    at_mut(&mut previous, 0, 0).set_symbol("日");
    at_mut(&mut previous, 0, 0).set_bg(Color::Blue);
    let mut next = Buffer::empty(Rect::new(0, 0, 3, 1));
    at_mut(&mut next, 0, 0).set_char('a');

    let updates = previous.diff(&next);
    let columns: Vec<u16> = updates.iter().map(|(x, _, _)| *x).collect();
    assert!(columns.contains(&0));
    assert!(
        columns.contains(&1),
        "the freed column must be refreshed, got {columns:?}"
    );
}

#[test]
fn a_narrowed_unstyled_wide_cell_needs_no_extra_write() {
    let mut previous = Buffer::empty(Rect::new(0, 0, 3, 1));
    at_mut(&mut previous, 0, 0).set_symbol("日");
    let mut next = Buffer::empty(Rect::new(0, 0, 3, 1));
    at_mut(&mut next, 0, 0).set_char('a');

    let updates = previous.diff(&next);
    assert_eq!(updates.len(), 1);
    assert_eq!(updates[0].0, 0);
}

#[test]
fn set_style_repaints_an_area_without_touching_symbols() {
    let mut buffer = Buffer::empty(Rect::new(0, 0, 4, 2));
    buffer.set_string(0, 0, "ab", Style::default());
    buffer.set_style(Rect::new(0, 0, 2, 1), Style::new().bg(Color::Blue));
    assert_eq!(at(&buffer, 0, 0).symbol(), "a");
    assert_eq!(at(&buffer, 0, 0).bg, Color::Blue);
    assert_eq!(at(&buffer, 2, 0).bg, Color::Reset, "outside the area");
}

#[test]
fn set_style_clips_an_oversized_area() {
    let mut buffer = Buffer::empty(Rect::new(0, 0, 2, 1));
    buffer.set_style(Rect::new(0, 0, 99, 99), Style::new().bg(Color::Blue));
    assert_eq!(at(&buffer, 1, 0).bg, Color::Blue);
}

#[test]
fn resize_changes_the_area_and_cell_count() {
    let mut buffer = Buffer::empty(Rect::new(0, 0, 2, 1));
    buffer.resize(Rect::new(0, 0, 3, 2));
    assert_eq!(buffer.area, Rect::new(0, 0, 3, 2));
    assert_eq!(buffer.content.len(), 6);
}

#[test]
fn resizing_to_the_same_area_preserves_every_cell() {
    let mut buffer = Buffer::empty(Rect::new(0, 0, 3, 2));
    buffer.set_string(0, 0, "abc", Style::default());
    buffer.resize(Rect::new(0, 0, 3, 2));
    assert_eq!(at(&buffer, 0, 0).symbol(), "a");
    assert_eq!(at(&buffer, 2, 0).symbol(), "c");
}

#[test]
fn growing_keeps_existing_cells_and_blanks_the_rest() {
    let mut buffer = Buffer::empty(Rect::new(0, 0, 2, 1));
    buffer.set_string(0, 0, "ab", Style::default());
    buffer.resize(Rect::new(0, 0, 2, 2));
    assert_eq!(at(&buffer, 0, 0).symbol(), "a");
    assert_eq!(at(&buffer, 1, 0).symbol(), "b");
    assert_eq!(at(&buffer, 0, 1).symbol(), " ");
}

#[test]
fn shrinking_truncates_rather_than_clearing() {
    let mut buffer = Buffer::empty(Rect::new(0, 0, 2, 2));
    buffer.set_string(0, 0, "ab", Style::default());
    buffer.resize(Rect::new(0, 0, 2, 1));
    assert_eq!(buffer.content.len(), 2);
    assert_eq!(at(&buffer, 0, 0).symbol(), "a");
}

#[test]
fn merge_grows_the_area_and_lets_the_other_win() {
    let mut base = Buffer::empty(Rect::new(0, 0, 2, 1));
    at_mut(&mut base, 0, 0).set_char('a');
    let mut overlay = Buffer::empty(Rect::new(1, 0, 2, 1));
    at_mut(&mut overlay, 1, 0).set_char('b');

    base.merge(&overlay);
    assert_eq!(base.area, Rect::new(0, 0, 3, 1));
    assert_eq!(at(&base, 0, 0).symbol(), "a");
    assert_eq!(at(&base, 1, 0).symbol(), "b");
}

#[test]
fn set_style_leaves_unset_fields_alone() {
    let mut cell = Cell::new("x");
    cell.set_bg(Color::Blue);
    cell.set_style(Style::new().fg(Color::Red));
    assert_eq!(cell.fg, Color::Red);
    assert_eq!(cell.bg, Color::Blue);
}

#[test]
fn with_lines_builds_a_grid_sized_to_the_widest_row() {
    let buffer = Buffer::with_lines(vec![Line::raw("ab"), Line::raw("cdef")]);
    assert_eq!(buffer.area, Rect::new(0, 0, 4, 2));
    assert_eq!(row(&buffer, 0), "ab  ");
    assert_eq!(row(&buffer, 1), "cdef");
}

#[test]
fn a_forced_width_is_never_zero() {
    assert!(NonZeroWidth::new(0).is_none());
    assert_eq!(NonZeroWidth::new(3).map(|w| w.get()), Some(3));
}
