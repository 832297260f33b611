use tuika::buffer::{Buffer, Cell};
use tuika::components::text::{line_width, wrap_lines, wrap_str, Paragraph, Text, Wrap};
use tuika::geometry::{Position, Rect, Size};
use tuika::style::{Color, Modifier, Style, Theme};
use tuika::surface::Surface;
use tuika::text::{Alignment, Line, Span};
use tuika::view::{RenderCtx, View};
use tuika::width::str_cols;

fn at(buffer: &Buffer, x: u16, y: u16) -> &Cell {
    buffer
        .cell(Position::new(x, y))
        .expect("position out of the buffer's area")
}

/// One row's symbols with trailing blanks trimmed.
fn row(buffer: &Buffer, y: u16) -> String {
    let s: String = (buffer.area.x..buffer.area.right())
        .map(|x| at(buffer, x, y).symbol().to_string())
        .collect();
    s.trim_end().to_string()
}

fn render<V: View>(view: &V, width: u16, height: u16) -> Buffer {
    let buffer = Buffer::empty(Rect::new(0, 0, width, height));
    let area = buffer.area;
    let mut surface = Surface::new(buffer, area);
    view.render(area, &mut surface, &RenderCtx::new(&Theme::default()));
    surface.into_buffer()
}

/// Concatenated text of a line's spans.
fn line_text(line: &Line) -> String {
    line.spans.iter().map(|s| s.content.as_str()).collect()
}

#[test]
fn text_renders_and_clips_to_width() {
    let text = Text::new(vec![Line::raw("hello world"), Line::raw("hi")]);
    let buf = render(&text, 6, 2);
    assert_eq!(row(&buf, 0), "hello");
    assert_eq!(row(&buf, 1), "hi");
}

#[test]
fn text_composes_line_style_under_span_style() {
    let line = Line::from_spans(vec![
        Span::raw("a"),
        Span::styled("b", Style::default().fg(Color::Blue)),
    ])
    .with_style(Style::default().fg(Color::Red).add_modifier(Modifier::bold()));
    let buf = render(&Text::new(vec![line]), 2, 1);
    assert_eq!(at(&buf, 0, 0).fg, Color::Red);
    assert_eq!(at(&buf, 1, 0).fg, Color::Blue);
    assert!(at(&buf, 0, 0).modifier.contains(Modifier::bold()));
    assert!(at(&buf, 1, 0).modifier.contains(Modifier::bold()));
}

#[test]
fn paragraph_wraps_to_width() {
    let p = Paragraph::new("the quick brown fox", Style::default());
    let theme = Theme::default();
    let size = p.measure(Size::new(10, 10), &RenderCtx::new(&theme));
    assert!(size.height >= 2, "expected wrap, got {size:?}");
    assert!(size.width <= 10);
}

#[test]
fn paragraph_measures_the_width_it_wrapped_to() {
    let family = "\u{1F468}\u{200D}\u{1F469}\u{200D}\u{1F467}";
    let text = format!("{family} {family} {family}");
    let theme = Theme::default();
    let p = Paragraph::new(&text, Style::default());
    let size = p.measure(Size::new(8, 4), &RenderCtx::new(&theme));
    assert_eq!(size, Size::new(8, 1), "all three should fit on one row");
    let size = p.measure(Size::new(5, 4), &RenderCtx::new(&theme));
    assert_eq!(size, Size::new(5, 2), "two rows: 2+1+2 columns, then 2");
}

#[test]
fn paragraph_breaks_only_at_whitespace_and_collapses_runs() {
    let rows = wrap_str("see  https://a.dev  now", 13);
    assert_eq!(rows[0].text, "see");
    assert_eq!(rows[1].text, "https://a.dev");
    assert_eq!(rows[2].text, "now");
}

#[test]
fn wrap_str_maps_every_word_back_to_its_source_bytes() {
    let src = "alpha  beta gamma";
    let rows = wrap_str(src, 11);
    assert_eq!(rows.len(), 2);
    assert_eq!(rows[0].text, "alpha beta");
    assert_eq!(rows[1].text, "gamma");
    for row in &rows {
        for (row_start, src_range) in &row.words {
            let len = src_range.1 - src_range.0;
            let word = &row.text[*row_start..row_start + len];
            assert_eq!(word, &src[src_range.0..src_range.1]);
        }
    }
}

#[test]
fn wrap_str_keeps_a_blank_line_blank() {
    assert_eq!(wrap_str("", 10).len(), 1);
    assert_eq!(wrap_str("", 10)[0].text, "");
    assert_eq!(wrap_str("   ", 10).len(), 1);
    assert_eq!(wrap_str("   ", 10)[0].text, "");
}

#[test]
fn wrapping_at_max_content_width_does_not_overflow_the_column_counter() {
    let long = vec!["aaaaaaaa"; 9000].join(" ");
    let rows = wrap_str(&long, u16::MAX);
    assert_eq!(rows.len(), 1, "everything fits at max-content width");
    let one_word_per_gap = long.split(' ').count();
    assert_eq!(rows[0].words.len(), one_word_per_gap);

    let out = wrap_lines(&[Line::raw(&long)], u16::MAX);
    assert_eq!(out.len(), 1);
}

#[test]
fn wrap_str_hard_breaks_an_overlong_word_without_exceeding_the_width() {
    let rows = wrap_str("short supercalifragilistic", 8);
    assert!(
        rows.iter().all(|r| str_cols(&r.text) <= 8),
        "no row may exceed the width: {:?}",
        rows.iter().map(|r| &r.text).collect::<Vec<_>>()
    );
    let joined: String = rows.iter().map(|r| r.text.replace(' ', "")).collect();
    assert_eq!(joined, "shortsupercalifragilistic");
}

#[test]
fn wrap_lines_breaks_on_word_boundaries() {
    let out = wrap_lines(&[Line::raw("the quick brown fox jumps")], 9);
    assert!(
        out.iter().all(|l| line_width(l) <= 9),
        "no output line may exceed the width: {out:?}"
    );
    let words: Vec<String> = out
        .iter()
        .flat_map(|l| {
            line_text(l)
                .split_whitespace()
                .map(String::from)
                .collect::<Vec<_>>()
        })
        .collect();
    assert_eq!(words, ["the", "quick", "brown", "fox", "jumps"]);
}

#[test]
fn wrap_lines_preserves_span_styles() {
    let red = Style::default().fg(Color::Red);
    let blue = Style::default().fg(Color::Blue);
    let line = Line::from_spans(vec![
        Span::styled("red", red),
        Span::raw(" "),
        Span::styled("blue", blue),
    ]);
    let out = wrap_lines(&[line], 40);
    assert_eq!(out.len(), 1);
    let spans = &out[0].spans;
    assert!(
        spans
            .iter()
            .any(|s| s.content.starts_with("red") && s.style.fg == Some(Color::Red)),
        "red run lost its style: {spans:?}"
    );
    assert!(
        spans
            .iter()
            .any(|s| s.content.contains("blue") && s.style.fg == Some(Color::Blue)),
        "blue run lost its style: {spans:?}"
    );
}

#[test]
fn wrap_lines_style_survives_a_break() {
    let accent = Style::default()
        .fg(Color::Blue)
        .add_modifier(Modifier::underlined());
    let out = wrap_lines(&[Line::from_span(Span::styled("aaaa bbbb", accent))], 4);
    assert_eq!(out.len(), 2, "{out:?}");
    for l in &out {
        assert!(
            l.spans.iter().all(|s| s.style.fg == Some(Color::Blue)
                && s.style.add_modifier.contains(Modifier::underlined())),
            "wrapped line dropped styling: {l:?}"
        );
    }
}

#[test]
fn wrap_lines_hard_breaks_overlong_word() {
    let word = "x".repeat(20);
    let out = wrap_lines(&[Line::raw(&word)], 8);
    assert!(out.len() >= 3, "a 20-col word at width 8 needs >=3 lines");
    assert!(out.iter().all(|l| line_width(l) <= 8));
    let joined: String = out.iter().map(|l| line_text(l)).collect();
    assert_eq!(joined, word, "hard-break must not lose characters");
}

#[test]
fn wrap_lines_counts_wide_glyphs() {
    let out = wrap_lines(&[Line::raw("你好世界")], 4);
    assert!(out.iter().all(|l| line_width(l) <= 4), "{out:?}");
    let joined: String = out.iter().map(|l| line_text(l)).collect();
    assert_eq!(joined, "你好世界");
}

#[test]
fn wrap_lines_keeps_emoji_clusters_intact() {
    let out = wrap_lines(&[Line::raw("❤\u{FE0F} 你 ok")], 4);
    assert!(out.iter().all(|l| line_width(l) <= 4), "{out:?}");
    let joined: String = out.iter().map(|l| line_text(l)).collect();
    assert!(
        joined.contains("❤\u{FE0F}"),
        "heart+VS16 survived: {joined:?}"
    );
}

#[test]
fn wrap_lines_keeps_blank_lines() {
    let lines = vec![Line::raw("a"), Line::raw(""), Line::raw("b")];
    let out = wrap_lines(&lines, 10);
    assert_eq!(
        out.len(),
        3,
        "a blank line must stay one blank row: {out:?}"
    );
    assert_eq!(line_text(&out[1]), "");
}

#[test]
fn wrap_lines_zero_width_is_identity() {
    let out = wrap_lines(&[Line::raw("hello world")], 0);
    assert_eq!(out.len(), 1);
    assert_eq!(line_text(&out[0]), "hello world");
}

#[test]
fn text_honors_line_alignment() {
    let text = Text::new(vec![
        Line::raw("ab"),
        Line::raw("cd").centered(),
        Line::raw("ef").right_aligned(),
    ]);
    let buf = render(&text, 7, 3);
    assert_eq!(row(&buf, 0), "ab", "unset alignment is flush-left");
    assert_eq!(row(&buf, 1), "  cd", "centered line offset by slack/2");
    assert_eq!(row(&buf, 2), "     ef", "right-aligned pins to right edge");
}

#[test]
fn paragraph_alignment_positions_each_wrapped_line() {
    let p = Paragraph::new("aa bb", Style::default()).alignment(Alignment::Right);
    let buf = render(&p, 6, 2);
    assert_eq!(row(&buf, 0), " aa bb");
}

#[test]
fn wrap_carries_alignment_onto_reflowed_rows() {
    let out = wrap_lines(&[Line::raw("aa bb cc").right_aligned()], 5);
    assert!(out.len() >= 2, "expected a wrap: {out:?}");
    assert!(
        out.iter().all(|l| l.alignment == Some(Alignment::Right)),
        "every reflowed row keeps the source alignment: {out:?}"
    );
}

#[test]
fn wrap_component_renders_reflowed() {
    let w = Wrap::new(vec![Line::raw("aa bb cc")]);
    let buf = render(&w, 5, 3);
    assert_eq!(row(&buf, 0), "aa bb");
    assert_eq!(row(&buf, 1), "cc");
}
