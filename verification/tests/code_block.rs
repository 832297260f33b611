use tuika::buffer::{Buffer, Cell};
use tuika::components::code_block::{
    code_block_lines, code_block_rows, code_rows_from, decimal_string, CodeBlock, CodeHighlighter, Highlighter,
};
use tuika::geometry::{Position, Rect, Size};
use tuika::style::{CodeTheme, Color, Modifier, Style, Theme};
use tuika::surface::Surface;
use tuika::text::{Line, Span};
use tuika::view::{RenderCtx, View};

fn at(buffer: &Buffer, x: u16, y: u16) -> &Cell {
    buffer
        .cell(Position::new(x, y))
        .expect("position out of the buffer's area")
}

fn row(buffer: &Buffer, y: u16) -> String {
    (buffer.area.x..buffer.area.right())
        .map(|x| at(buffer, x, y).symbol().to_string())
        .collect()
}

fn render<V: View>(view: &V, width: u16, height: u16, theme: &Theme) -> Buffer {
    let buffer = Buffer::empty(Rect::new(0, 0, width, height));
    let area = buffer.area;
    let mut surface = Surface::new(buffer, area);
    view.render(area, &mut surface, &RenderCtx::new(theme));
    surface.into_buffer()
}

fn rainbow_theme() -> Theme {
    Theme {
        text: Color::Indexed(1),
        muted: Color::Indexed(2),
        dim: Color::Indexed(3),
        accent: Color::Indexed(4),
        border: Color::Indexed(5),
        border_focused: Color::Indexed(9),
        surface: Color::Indexed(6),
        selection_bg: Color::Indexed(7),
        selection_fg: Color::Indexed(8),
        code: CodeTheme {
            background: Color::Indexed(10),
            text: Color::Indexed(11),
            label: Color::Indexed(12),
            heading: Color::Indexed(13),
            link: Color::Indexed(14),
        },
    }
}

fn text(line: &Line) -> String {
    line.spans.iter().map(|s| s.content.as_str()).collect()
}

#[test]
fn line_numbers_gutter_counts_and_aligns() {
    let theme = Theme::default();
    let src = (1..=9)
        .map(|n| format!("line{n}"))
        .collect::<Vec<_>>()
        .join("\n");
    let block = CodeBlock::new("", &src).label(false).line_numbers(true);
    let buf = render(&block, 30, 9, &theme);
    assert!(row(&buf, 0).starts_with(" 1 "), "first row: {:?}", row(&buf, 0));
    assert!(row(&buf, 8).starts_with(" 9 "), "last row: {:?}", row(&buf, 8));
    assert!(row(&buf, 0).contains('▏'));
}

#[test]
fn start_line_offsets_and_widens_gutter() {
    let theme = Theme::default();
    let block = CodeBlock::new("", "a\nb").label(false).start_line(99);
    let buf = render(&block, 30, 2, &theme);
    assert!(row(&buf, 0).starts_with("  99 "), "row0: {:?}", row(&buf, 0));
    assert!(row(&buf, 1).starts_with(" 100 "), "row1: {:?}", row(&buf, 1));
}

#[test]
fn no_gutter_by_default() {
    let theme = Theme::default();
    let block = CodeBlock::new("", "x").label(false);
    let buf = render(&block, 20, 1, &theme);
    assert!(row(&buf, 0).starts_with('▏'), "row0: {:?}", row(&buf, 0));
}

#[test]
fn background_fills_the_assigned_width() {
    let theme = rainbow_theme();
    let block = CodeBlock::new("text", "x");
    let buf = render(&block, 12, 2, &theme);
    for y in 0..2 {
        for x in 0..12 {
            assert_eq!(at(&buf, x, y).bg, theme.code.background, "cell ({x}, {y})");
        }
    }
}

#[test]
fn label_row_shows_the_trimmed_language_in_italic() {
    let theme = rainbow_theme();
    let rows = code_block_rows("  rust ", &["fn main() {}".to_string()], &theme, CodeHighlighter::Plain, true, None);
    assert_eq!(rows.len(), 2);
    assert_eq!(text(&rows[0].line), "▏ rust");
    assert_eq!(rows[0].width, 6);
    let label = &rows[0].line.spans[0];
    assert_eq!(label.style.fg, Some(theme.code.label));
    assert_eq!(label.style.bg, Some(theme.code.background));
    assert!(label.style.add_modifier.contains(Modifier::italic()));
    assert_eq!(text(&rows[1].line), "▏ fn main() {}");
    assert_eq!(rows[1].width, 14);
    assert_eq!(rows[1].line.spans[1].style.fg, Some(theme.code.text));
}

#[test]
fn a_blank_language_or_a_hidden_label_gives_no_label_row() {
    let theme = Theme::default();
    let body = vec!["x".to_string()];
    assert_eq!(code_block_rows("   ", &body, &theme, CodeHighlighter::Plain, true, None).len(), 1);
    assert_eq!(code_block_rows("rust", &body, &theme, CodeHighlighter::Plain, false, None).len(), 1);
}

#[test]
fn gutter_pads_numbers_to_the_widest() {
    let theme = Theme::default();
    let body: Vec<String> = (0..3).map(|i| format!("l{i}")).collect();
    let lines = code_block_lines("", &body, &theme, CodeHighlighter::Plain, true, Some(9));
    assert_eq!(text(&lines[0]), "  9 ▏ l0");
    assert_eq!(text(&lines[1]), " 10 ▏ l1");
    assert_eq!(text(&lines[2]), " 11 ▏ l2");
    let labelled = code_block_lines("py", &body, &theme, CodeHighlighter::Plain, true, Some(1));
    assert_eq!(text(&labelled[0]), "   ▏ py");
}

#[test]
fn highlighted_spans_keep_their_color_over_the_code_background() {
    let theme = rainbow_theme();
    let body = vec!["let x".to_string(), "y".to_string()];
    let hl = vec![
        vec![
            Span::styled("let", Style::default().fg(Color::Red)),
            Span::styled(" x", Style::default().fg(Color::Green)),
        ],
        vec![],
    ];
    let rows = code_rows_from("", &body, &theme, true, None, Some(hl));
    let first = &rows[0].line.spans;
    assert_eq!(first.len(), 3);
    assert_eq!(first[1].content, "let");
    assert_eq!(first[1].style.fg, Some(Color::Red));
    assert_eq!(first[1].style.bg, Some(theme.code.background));
    assert_eq!(first[2].style.fg, Some(Color::Green));
    // An empty highlighted line falls back to the plain source.
    assert_eq!(text(&rows[1].line), "▏ y");
    assert_eq!(rows[1].line.spans[1].style.fg, Some(theme.code.text));
}

struct Shout;

impl Highlighter for Shout {
    fn highlight(&self, _lang: &str, body: &[String], _theme: &Theme) -> Option<Vec<Vec<Span>>> {
        Some(
            body.iter()
                .map(|l| vec![Span::styled(&l.to_uppercase(), Style::default().fg(Color::Magenta))])
                .collect(),
        )
    }
}

#[test]
fn a_plugged_in_highlighter_colors_the_body() {
    let theme = Theme::default();
    let h = Shout;
    let block = CodeBlock::new("", "abc").label(false).highlighter(&h);
    let lines = block.lines(&theme);
    assert_eq!(text(&lines[0]), "▏ ABC");
    assert_eq!(lines[0].spans[1].style.fg, Some(Color::Magenta));
}

#[test]
fn measure_uses_the_widest_line_within_the_available_width() {
    let ctx = RenderCtx::new(&Theme::default());
    let block = CodeBlock::new("rust", "a\nlonger line");
    assert_eq!(block.measure(Size::new(40, 10), &ctx), Size::new(13, 3));
    assert_eq!(block.measure(Size::new(5, 10), &ctx), Size::new(5, 3));
}

#[test]
fn decimal_strings_have_no_padding() {
    assert_eq!(decimal_string(0), "0");
    assert_eq!(decimal_string(7), "7");
    assert_eq!(decimal_string(1234), "1234");
    assert_eq!(decimal_string(usize::MAX), usize::MAX.to_string());
}
