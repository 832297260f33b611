use tuika::buffer::{Buffer, Cell};
use tuika::components::code_block::CodeHighlighter;
use tuika::components::markdown::flatten::{
    flatten_linked, flatten_linked_after, link_runs, wrap_rich, MarkdownBlock, MarkdownBlockContext, MarkdownBlockRenderer, Renderers,
};
use tuika::components::markdown::item::{BufferLink, ColumnAlign, MdItem, RichSpan, TableData};
use tuika::components::markdown::parse::{
    linkify, trim_spans,
};
use tuika::components::markdown::stream::MarkdownState;
use tuika::components::markdown::table::render_table_linked;
use tuika::components::text::{line_width, Text};
use tuika::geometry::{Position, Rect};
use tuika::style::{Color, Modifier, Style, StyleBundle, StyleSheet, Theme};
use tuika::surface::Surface;
use tuika::text::{Line, Span};
use tuika::view::{RenderCtx, View};

fn frame<'s>(state: &'s mut MarkdownState, width: u16, theme: &Theme, sheet: &StyleSheet) -> &'s [Line] {
    state.lines(width, theme, sheet, CodeHighlighter::Plain)
}

fn to_linked_lines_with(
    source: &str,
    width: u16,
    theme: &Theme,
    sheet: &StyleSheet,
    renderers: Renderers,
) -> (Vec<Line>, Vec<BufferLink>) {
    tuika::components::markdown::to_linked_lines_with(source, width, theme, sheet, CodeHighlighter::Plain, renderers)
}

fn to_linked_lines(source: &str, width: u16, theme: &Theme, sheet: &StyleSheet) -> (Vec<Line>, Vec<BufferLink>) {
    to_linked_lines_with(source, width, theme, sheet, Renderers::new())
}

fn to_lines(source: &str, width: u16, theme: &Theme, sheet: &StyleSheet) -> Vec<Line> {
    to_linked_lines(source, width, theme, sheet).0
}

fn to_lines_with(source: &str, width: u16, theme: &Theme, sheet: &StyleSheet, renderers: Renderers) -> Vec<Line> {
    to_linked_lines_with(source, width, theme, sheet, renderers).0
}

fn to_lines_with_renderer(
    source: &str,
    width: u16,
    theme: &Theme,
    sheet: &StyleSheet,
    renderer: &dyn MarkdownBlockRenderer,
) -> Vec<Line> {
    to_lines_with(source, width, theme, sheet, Renderers::new().renderer(renderer))
}

fn text(line: &Line) -> String {
    line.spans.iter().map(|s| s.content.as_str()).collect()
}

fn plain(source: &str, width: u16) -> Vec<String> {
    to_lines(source, width, &Theme::default(), &StyleSheet::default())
        .iter()
        .map(text)
        .collect()
}

fn render(source: &str, width: u16) -> Vec<Line> {
    let theme = Theme::default();
    to_lines(source, width, &theme, &StyleSheet::from_theme(&theme))
}

fn span_with<'a>(lines: &'a [Line], needle: &str) -> &'a Span {
    lines
        .iter()
        .flat_map(|l| &l.spans)
        .find(|s| s.content.contains(needle))
        .unwrap_or_else(|| panic!("missing {needle:?} span"))
}

fn at(buffer: &Buffer, x: u16, y: u16) -> &Cell {
    buffer
        .cell(Position::new(x, y))
        .expect("position out of the buffer's area")
}

#[test]
fn heading_is_bold_and_themed() {
    let theme = Theme::default();
    let lines = to_lines("# Title", 40, &theme, &StyleSheet::from_theme(&theme));
    let span = &lines[0].spans[0];
    assert_eq!(span.content, "Title");
    assert!(span.style.add_modifier.contains(Modifier::bold()));
    assert_eq!(span.style.fg, Some(theme.code.heading));
}

#[test]
fn emphasis_and_strong_carry_modifiers() {
    let theme = Theme::default();
    let lines = to_lines("plain *em* and **bold**", 60, &theme, &StyleSheet::from_theme(&theme));
    let em = lines[0].spans.iter().find(|s| s.content.contains("em")).expect("emphasis span");
    assert!(em.style.add_modifier.contains(Modifier::italic()));
    let bold = lines[0].spans.iter().find(|s| s.content.contains("bold")).expect("strong span");
    assert!(bold.style.add_modifier.contains(Modifier::bold()));
}

#[test]
fn inline_code_gets_code_background() {
    let theme = Theme::default();
    let lines = to_lines("use `cargo test` now", 60, &theme, &StyleSheet::from_theme(&theme));
    let code = lines[0].spans.iter().find(|s| s.content.contains("cargo test")).expect("inline code span");
    assert_eq!(code.style.bg, Some(theme.code.background));
}

#[test]
fn bullet_list_renders_markers() {
    let out = plain("- one\n- two", 40);
    assert!(out.iter().any(|l| l.contains("• one")), "{out:?}");
    assert!(out.iter().any(|l| l.contains("• two")), "{out:?}");
}

#[test]
fn ordered_list_numbers_increment() {
    let out = plain("1. first\n2. second", 40);
    assert!(out.iter().any(|l| l.contains("1. first")), "{out:?}");
    assert!(out.iter().any(|l| l.contains("2. second")), "{out:?}");
}

#[test]
fn nested_list_is_indented() {
    let out = plain("- outer\n  - inner", 40);
    let inner = out.iter().find(|l| l.contains("inner")).unwrap();
    assert!(inner.starts_with("  "), "nested item should be indented: {inner:?}");
}

#[test]
fn task_list_checkboxes_are_themed_markers() {
    let theme = Theme::default();
    let sheet = StyleSheet::from_theme(&theme);
    let lines = to_lines("- [ ] todo\n- [x] done", 40, &theme, &sheet);
    let marker = lines
        .iter()
        .flat_map(|l| &l.spans)
        .find(|s| s.content.contains("[x]"))
        .expect("checked marker span");
    assert_eq!(marker.style.fg, sheet.task_marker.to_style().fg);
    let out: Vec<String> = lines.iter().map(text).collect();
    assert!(out.iter().any(|l| l.contains("[ ] todo")), "unchecked item: {out:?}");
}

#[test]
fn nested_list_starts_its_own_line() {
    let out = plain("- outer\n  - inner", 40);
    assert!(out.iter().any(|l| l.trim() == "• outer"), "parent item keeps its own line: {out:?}");
    assert!(out.iter().any(|l| l.trim() == "• inner"), "nested item keeps its own line: {out:?}");
}

#[test]
fn block_inside_tight_item_follows_the_item_text() {
    let out = plain("- item\n  > quoted\n- next\n  ```\n  code\n  ```", 40);
    let at = |needle: &str| {
        out.iter()
            .position(|l| l.contains(needle))
            .unwrap_or_else(|| panic!("missing {needle:?}: {out:?}"))
    };
    assert!(out.iter().any(|l| l.trim() == "• item"), "item text stays on its own line: {out:?}");
    assert!(at("quoted") > at("• item"), "quote follows its item: {out:?}");
    assert!(at("code") > at("• next"), "fence follows its item: {out:?}");
}

#[test]
fn loose_item_keeps_its_marker_on_the_first_paragraph() {
    let out = plain("- one\n\n  more\n\n- two", 40);
    assert!(out.iter().any(|l| l.trim() == "• one"), "marker rides the first paragraph: {out:?}");
    assert!(!out.iter().any(|l| l.trim() == "•"), "no marker-only line: {out:?}");
}

#[test]
fn fenced_code_preserves_indentation_verbatim() {
    let src = "```\n    indented\n```";
    let out = plain(src, 40);
    assert!(out.iter().any(|l| l.contains("    indented")), "code indentation must survive: {out:?}");
}

#[test]
fn fenced_code_shows_language_label() {
    let out = plain("```rust\nfn main() {}\n```", 40);
    assert!(out.iter().any(|l| l.contains("rust")), "{out:?}");
}

#[test]
fn fenced_code_background_fills_the_available_width() {
    let theme = Theme::default();
    let width = 300;
    let lines = to_lines("```text\nx\n```", width, &theme, &StyleSheet::from_theme(&theme));
    assert_eq!(lines.len(), 2);
    for line in &lines {
        assert_eq!(line_width(line), width);
        assert!(
            line.spans.iter().all(|span| span.style.bg == Some(theme.code.background)),
            "all code cells should carry the code background: {line:?}"
        );
    }
}

#[test]
fn nested_fenced_code_fills_only_after_its_indent() {
    let theme = Theme::default();
    let lines = to_lines("> ```text\n> x\n> ```", 12, &theme, &StyleSheet::from_theme(&theme));
    let label = lines.iter().find(|line| text(line).contains("text")).expect("language label");
    assert_eq!(line_width(label), 12);
    assert_eq!(label.spans[0].content, "  ");
    assert_eq!(label.spans[0].style.bg, None);
    assert!(label.spans[1..].iter().all(|span| span.style.bg == Some(theme.code.background)));
}

#[test]
fn code_fence_is_not_word_wrapped() {
    let long = "x".repeat(60);
    let src = format!("```\n{long}\n```");
    let lines = to_lines(&src, 20, &Theme::default(), &StyleSheet::default());
    let code_rows = lines.iter().filter(|l| text(l).contains("xxxx")).count();
    assert_eq!(code_rows, 1, "code line must not wrap");
}

struct DiagramRenderer;

impl MarkdownBlockRenderer for DiagramRenderer {
    fn render(&self, block: MarkdownBlock<'_>, context: MarkdownBlockContext<'_>) -> Option<Vec<Line>> {
        let MarkdownBlock::Fenced { language, source } = block else {
            return None;
        };
        (language == "diagram").then(|| {
            vec![Line::from_span(Span::styled(
                &format!("rendered at {}: {source}", context.width),
                Style::default().fg(context.theme.accent),
            ))]
        })
    }
}

#[test]
fn fenced_block_renderer_replaces_recognized_language() {
    let theme = Theme::default();
    let lines = to_lines_with_renderer(
        "```diagram\nA --> B\n```",
        37,
        &theme,
        &StyleSheet::from_theme(&theme),
        &DiagramRenderer,
    );
    assert_eq!(lines.len(), 1);
    assert_eq!(text(&lines[0]), "rendered at 37: A --> B");
    assert_eq!(lines[0].spans[0].style.fg, Some(theme.accent));
}

#[test]
fn fenced_block_renderer_none_preserves_code_block() {
    let theme = Theme::default();
    let lines = to_lines_with_renderer(
        "```rust\nfn main() {}\n```",
        40,
        &theme,
        &StyleSheet::from_theme(&theme),
        &DiagramRenderer,
    );
    let output: Vec<String> = lines.iter().map(text).collect();
    assert!(output.iter().any(|line| line.contains("rust")), "{output:?}");
    assert!(output.iter().any(|line| line.contains("fn main()")), "{output:?}");
}

struct StyledFence;

impl MarkdownBlockRenderer for StyledFence {
    fn render(&self, block: MarkdownBlock<'_>, context: MarkdownBlockContext<'_>) -> Option<Vec<Line>> {
        matches!(block, MarkdownBlock::Fenced { language: "styled", .. })
            .then(|| vec![Line::from_span(Span::styled("styled", context.sheet.heading.to_style()))])
    }
}

#[test]
fn fenced_block_renderer_receives_the_active_stylesheet() {
    let theme = Theme::default();
    let sheet = StyleSheet {
        heading: StyleBundle::new().fg(Color::Green),
        ..StyleSheet::from_theme(&theme)
    };
    let lines = to_lines_with_renderer("```styled\nsource\n```", 20, &theme, &sheet, &StyledFence);
    assert_eq!(lines[0].spans[0].style.fg, Some(Color::Green));
}

#[test]
fn prose_word_wraps_to_width() {
    let out = plain("one two three four five six seven eight", 12);
    assert!(out.len() > 1, "long prose should wrap: {out:?}");
    for line in &out {
        assert!(line.chars().count() <= 12, "line over width: {line:?}");
    }
}

#[test]
fn bare_url_is_linkified() {
    let theme = Theme::default();
    let lines = to_lines("see https://example.com now", 60, &theme, &StyleSheet::from_theme(&theme));
    let url = lines[0].spans.iter().find(|s| s.content.contains("example.com")).expect("url span");
    assert_eq!(url.style.fg, Some(theme.code.link));
    assert!(url.style.add_modifier.contains(Modifier::underlined()));
}

#[test]
fn bare_url_does_not_underline_the_following_space() {
    let theme = Theme::default();
    let source = "Fetched **https://everruns.com/** and saved a durable summary to:";
    let (lines, links) = to_linked_lines(source, 80, &theme, &StyleSheet::from_theme(&theme));
    let url = "https://everruns.com/";
    let url_span = lines[0].spans.iter().find(|span| span.content.starts_with(url)).expect("url span");
    assert_eq!(url_span.content, url);
    let link = links.iter().find(|link| link.url == url).expect("url link");
    assert_eq!(link.end_col - link.start_col, url.len() as u16);
    let buffer = Buffer::empty(Rect::new(0, 0, 80, 1));
    let area = buffer.area;
    let mut surface = Surface::new(buffer, area);
    Text::new(lines).render(area, &mut surface, &RenderCtx::new(&theme));
    let buffer = surface.into_buffer();
    let following_space = link.end_col;
    assert!(!at(&buffer, following_space, 0).modifier.contains(Modifier::underlined()));
}

#[test]
fn labeled_markdown_link_preserves_destination_for_ctrl_click() {
    let theme = Theme::default();
    let (lines, links) = to_linked_lines(
        "See the [docs](https://example.com/api) please.",
        60,
        &theme,
        &StyleSheet::from_theme(&theme),
    );
    assert!(
        links.iter().any(|l| l.url == "https://example.com/api"),
        "labeled link must yield a BufferLink: {links:?}"
    );
    let link = links.iter().find(|l| l.url == "https://example.com/api").unwrap();
    let plain: String = lines[link.line as usize].spans.iter().map(|s| s.content.as_str()).collect();
    assert!(plain.contains("docs"), "label visible: {plain:?}");
    assert!(!plain.contains("example.com"), "URL must not replace the label: {plain:?}");
    // The run covers exactly the visible label.
    let label: String = plain.chars().skip(link.start_col as usize).take((link.end_col - link.start_col) as usize).collect();
    assert_eq!(label, "docs");
}

#[test]
fn custom_sheet_restyles_both_links_and_bare_urls() {
    let theme = Theme::default();
    let sheet = StyleSheet {
        link: StyleBundle::new().fg(Color::Green).bold(),
        ..StyleSheet::from_theme(&theme)
    };
    let lines = to_lines("[docs](https://ex.com) and https://bare.example.com here", 80, &theme, &sheet);
    let spans: Vec<&Span> = lines.iter().flat_map(|l| &l.spans).collect();
    for needle in ["docs", "bare.example.com"] {
        let span = spans
            .iter()
            .find(|s| s.content.contains(needle))
            .unwrap_or_else(|| panic!("missing {needle:?} span"));
        assert_eq!(span.style.fg, Some(Color::Green), "{needle}: recolored");
        assert!(span.style.add_modifier.contains(Modifier::bold()), "{needle}: bold");
        assert!(
            !span.style.add_modifier.contains(Modifier::underlined()),
            "{needle}: underline dropped by the custom rule"
        );
    }
}

#[test]
fn custom_sheet_restyles_headings() {
    let theme = Theme::default();
    let sheet = StyleSheet {
        heading: StyleBundle::new().fg(Color::Magenta).italic(),
        ..StyleSheet::from_theme(&theme)
    };
    let lines = to_lines("# Title", 40, &theme, &sheet);
    let span = &lines[0].spans[0];
    assert_eq!(span.content, "Title");
    assert_eq!(span.style.fg, Some(Color::Magenta));
    assert!(span.style.add_modifier.contains(Modifier::italic()));
    assert!(!span.style.add_modifier.contains(Modifier::bold()));
}

#[test]
fn inline_html_resolves_the_same_roles_as_markdown_markup() {
    let theme = Theme::default();
    let sheet = StyleSheet::from_theme(&theme);
    let lines = render("<b>bee</b> <i>eye</i> <code>see</code> <u>you</u> <mark>em</mark>", 60);
    assert!(span_with(&lines, "bee").style.add_modifier.contains(Modifier::bold()));
    assert!(span_with(&lines, "eye").style.add_modifier.contains(Modifier::italic()));
    assert_eq!(span_with(&lines, "see").style.bg, sheet.inline_code.to_style().bg);
    assert!(span_with(&lines, "you").style.add_modifier.contains(Modifier::underlined()));
    assert!(span_with(&lines, "em").style.add_modifier.contains(Modifier::reversed()));
}

#[test]
fn inline_html_follows_a_restyled_role() {
    let theme = Theme::default();
    let sheet = StyleSheet {
        strong: StyleBundle::new().fg(Color::Green),
        ..StyleSheet::from_theme(&theme)
    };
    let lines = to_lines("<b>tagged</b>", 40, &theme, &sheet);
    assert_eq!(span_with(&lines, "tagged").style.fg, Some(Color::Green));
}

#[test]
fn br_breaks_the_line_and_collapses_inside_a_cell() {
    let out: Vec<String> = render("one<br>two", 40).iter().map(text).collect();
    assert!(out.iter().any(|l| l.trim() == "one"), "{out:?}");
    assert!(out.iter().any(|l| l.trim() == "two"), "{out:?}");
    let cell: Vec<String> = render("| h |\n| --- |\n| a<br>b |", 40).iter().map(text).collect();
    assert!(cell.iter().any(|l| l.contains("a b")), "{cell:?}");
}

#[test]
fn anchor_keeps_its_label_and_destination() {
    let theme = Theme::default();
    let (lines, links) = to_linked_lines(
        r#"see <a href="https://example.com/x">the docs</a> now"#,
        60,
        &theme,
        &StyleSheet::from_theme(&theme),
    );
    let plain: String = lines.iter().map(text).collect();
    assert!(plain.contains("the docs"), "{plain:?}");
    assert!(!plain.contains("example.com"), "label, not URL: {plain:?}");
    assert!(links.iter().any(|l| l.url == "https://example.com/x"), "anchor must yield a BufferLink: {links:?}");
}

#[test]
fn img_tag_takes_the_markdown_image_path() {
    let out: Vec<String> = render(r#"before <img src="p.png" alt="a cat"> after"#, 60).iter().map(text).collect();
    assert!(out.iter().any(|l| l.contains("🖼 a cat")), "unresolved `<img>` shows the alt placeholder: {out:?}");
}

#[test]
fn sub_and_sup_become_unicode_when_every_character_maps() {
    let out: Vec<String> = render("H<sub>2</sub>O and x<sup>-9</sup>", 40).iter().map(text).collect();
    assert!(out.iter().any(|l| l.contains("H₂O")), "{out:?}");
    assert!(out.iter().any(|l| l.contains("x⁻⁹")), "{out:?}");
    let mixed: Vec<String> = render("4<sup>th</sup>", 40).iter().map(text).collect();
    assert!(mixed.iter().any(|l| l.contains("4th")), "{mixed:?}");
}

struct EchoHtml;

impl MarkdownBlockRenderer for EchoHtml {
    fn render(&self, block: MarkdownBlock<'_>, context: MarkdownBlockContext<'_>) -> Option<Vec<Line>> {
        let MarkdownBlock::Html { source } = block else {
            return None;
        };
        let text = source.split_whitespace().collect::<Vec<_>>().join(" ");
        (!text.is_empty()).then(|| {
            vec![Line::from_span(Span::styled(
                &format!("[{}] {text}", context.width),
                Style::default().fg(context.theme.accent),
            ))]
        })
    }
}

fn with_html(source: &str, width: u16) -> Vec<String> {
    let theme = Theme::default();
    to_lines_with(source, width, &theme, &StyleSheet::from_theme(&theme), Renderers::new().renderer(&EchoHtml))
        .iter()
        .map(text)
        .collect()
}

#[test]
fn structured_block_renderer_lays_out_raw_html() {
    let out = with_html("before\n\n<details><summary>S</summary>body</details>\n\nafter", 40);
    assert!(out.iter().any(|l| l == "[40] <details><summary>S</summary>body</details>"), "{out:?}");
    assert!(out.iter().any(|l| l == "before"), "{out:?}");
    assert!(out.iter().any(|l| l == "after"), "{out:?}");
}

#[test]
fn html_block_is_indented_by_its_container() {
    let out = with_html("> quoted\n>\n> <div>x</div>", 40);
    let block = out.iter().find(|l| l.contains("<div>")).unwrap_or_else(|| panic!("{out:?}"));
    assert!(block.starts_with("  ["), "indented: {block:?}");
    assert!(block.contains("[38]"), "width less the indent: {block:?}");
}

#[test]
fn html_block_without_a_renderer_is_dropped() {
    let out: Vec<String> = render("a\n\n<div>x</div>\n\nb", 40).iter().map(text).collect();
    assert!(!out.join("\n").contains('x'), "{out:?}");
}

struct Decline;

impl MarkdownBlockRenderer for Decline {
    fn render(&self, _: MarkdownBlock<'_>, _: MarkdownBlockContext<'_>) -> Option<Vec<Line>> {
        None
    }
}

#[test]
fn block_renderer_returning_none_drops_html() {
    let theme = Theme::default();
    let out: Vec<String> = to_lines_with(
        "a\n\n<div>x</div>\n\nb",
        40,
        &theme,
        &StyleSheet::from_theme(&theme),
        Renderers::new().renderer(&Decline),
    )
    .iter()
    .map(text)
    .collect();
    assert!(!out.join("\n").contains('x'), "{out:?}");
    assert!(out.iter().any(|l| l == "a"), "{out:?}");
}

#[test]
fn independent_block_renderers_compose() {
    let theme = Theme::default();
    let out: Vec<String> = to_lines_with(
        "```diagram\nA --> B\n```\n\n<div>html</div>",
        37,
        &theme,
        &StyleSheet::from_theme(&theme),
        Renderers::new().renderer(&DiagramRenderer).renderer(&EchoHtml),
    )
    .iter()
    .map(text)
    .collect();
    assert!(out.iter().any(|l| l.contains("rendered at 37")), "{out:?}");
    assert!(out.iter().any(|l| l.contains("[37] <div>html")), "{out:?}");
}

struct Named(&'static str);

impl MarkdownBlockRenderer for Named {
    fn render(&self, block: MarkdownBlock<'_>, _: MarkdownBlockContext<'_>) -> Option<Vec<Line>> {
        matches!(block, MarkdownBlock::Html { .. }).then(|| vec![Line::raw(self.0)])
    }
}

#[test]
fn renderer_chain_uses_the_first_handler() {
    let theme = Theme::default();
    let first = Named("first");
    let second = Named("second");
    let out = to_lines_with(
        "<div>html</div>",
        20,
        &theme,
        &StyleSheet::from_theme(&theme),
        Renderers::new().renderer(&first).renderer(&second),
    );
    assert_eq!(text(&out[0]), "first");
}

#[test]
fn unrecognized_html_is_dropped_as_before() {
    let out: Vec<String> = render("<div>\n<p>block</p>\n</div>\n\nafter <span>x</span>", 40).iter().map(text).collect();
    let joined = out.join("\n");
    assert!(!joined.contains('<'), "no raw markup rendered: {out:?}");
    assert!(joined.contains("after x"), "{out:?}");
}

#[test]
fn unbalanced_html_cannot_leak_past_its_block() {
    let lines = render("<b>open\n\n</i>stray\n\n<b><i>crossed</b>tail", 40);
    for needle in ["stray", "tail"] {
        assert!(
            !span_with(&lines, needle).style.add_modifier.contains(Modifier::bold()),
            "{needle} must not inherit an unclosed scope"
        );
    }
}

#[test]
fn deeply_nested_html_is_bounded_and_renders_its_text() {
    let source = format!("{}deep{}", "<b>".repeat(500), "</b>".repeat(500));
    let out: Vec<String> = render(&source, 40).iter().map(text).collect();
    assert!(out.iter().any(|l| l.contains("deep")), "{out:?}");
}

#[test]
fn html_inside_a_code_fence_stays_literal() {
    let out: Vec<String> = render("```html\n<b>x</b>\n```", 40).iter().map(text).collect();
    assert!(out.iter().any(|l| l.contains("<b>x</b>")), "code is verbatim: {out:?}");
}

#[test]
fn partial_emphasis_degrades_gracefully() {
    let out = plain("this is **unfinished", 40);
    assert!(out.iter().any(|l| l.contains("unfinished")), "{out:?}");
}

#[test]
fn table_renders_boxed_with_headers() {
    let src = "| A | B |\n| - | - |\n| 1 | 2 |";
    let out = plain(src, 40);
    assert!(out.iter().any(|l| l.contains('╭')), "top border: {out:?}");
    assert!(out.iter().any(|l| l.contains('A') && l.contains('B')), "header: {out:?}");
    assert!(out.iter().any(|l| l.contains('1') && l.contains('2')), "row: {out:?}");
}

#[test]
fn table_header_cells_are_bold_and_themed() {
    let theme = Theme::default();
    let src = "| Name | Kind |\n| --- | --- |\n| a | b |";
    let lines = to_lines(src, 40, &theme, &StyleSheet::from_theme(&theme));
    let head = lines.iter().flat_map(|l| &l.spans).find(|s| s.content.contains("Name")).expect("header cell span");
    assert!(head.style.add_modifier.contains(Modifier::bold()));
    assert_eq!(head.style.fg, Some(theme.code.heading));
}

#[test]
fn table_cell_link_is_styled() {
    let theme = Theme::default();
    let src = "| Site |\n| --- |\n| [yolop](https://everruns.dev) |";
    let lines = to_lines(src, 40, &theme, &StyleSheet::from_theme(&theme));
    let link = lines.iter().flat_map(|l| &l.spans).find(|s| s.content.contains("yolop")).expect("link cell span");
    assert_eq!(link.style.fg, Some(theme.code.link));
    assert!(link.style.add_modifier.contains(Modifier::underlined()));
}

#[test]
fn table_cell_bold_and_inline_code_survive() {
    let theme = Theme::default();
    let src = "| Col |\n| --- |\n| **hi** and `cargo` |";
    let lines = to_lines(src, 40, &theme, &StyleSheet::from_theme(&theme));
    let spans: Vec<&Span> = lines.iter().flat_map(|l| &l.spans).collect();
    let bold = spans.iter().find(|s| s.content.contains("hi")).expect("bold span");
    assert!(bold.style.add_modifier.contains(Modifier::bold()));
    let code = spans.iter().find(|s| s.content.contains("cargo")).expect("code span");
    assert_eq!(code.style.bg, Some(theme.code.background));
}

#[test]
fn table_cell_emoji_keeps_borders_aligned() {
    let src = "| Status |\n| --- |\n| ok ✅ |\n| bad |";
    let lines = to_lines(src, 40, &Theme::default(), &StyleSheet::default());
    let box_rows: Vec<u16> = lines.iter().filter(|l| text(l).contains('│')).map(line_width).collect();
    assert!(box_rows.len() >= 2, "expected boxed rows: {box_rows:?}");
    assert!(box_rows.windows(2).all(|w| w[0] == w[1]), "boxed rows must share one width: {box_rows:?}");
}

#[test]
fn table_falls_back_to_plain_when_too_narrow_and_always_fits() {
    let src = "| Col A | Col B |\n| --- | --- |\n| alpha | beta |";
    for width in [4u16, 8, 12, 20, 48] {
        let lines = to_lines(src, width, &Theme::default(), &StyleSheet::default());
        for line in &lines {
            assert!(line_width(line) <= width, "table line exceeded width {width}: {:?}", text(line));
        }
        let body: String = lines.iter().map(text).collect::<Vec<_>>().join("\n");
        assert!(body.contains("Col"), "content survives at width {width}");
    }
}

#[test]
fn image_renders_alt_as_a_marked_placeholder() {
    let theme = Theme::default();
    let lines = to_lines("look: ![a cat](https://ex.com/cat.png) ok", 60, &theme, &StyleSheet::from_theme(&theme));
    let whole: String = lines.iter().map(text).collect::<Vec<_>>().join("\n");
    assert!(whole.contains("🖼 a cat"), "expected marked alt: {whole:?}");
    assert!(whole.contains("look:") && whole.contains("ok"));
    let label = lines.iter().flat_map(|l| &l.spans).find(|s| s.content.contains("a cat")).expect("alt span");
    assert_eq!(label.style.fg, Some(theme.code.link));
    assert!(label.style.add_modifier.contains(Modifier::underlined()));
}

#[test]
fn image_without_alt_shows_the_url_so_it_is_never_dropped() {
    let out = plain("![](https://ex.com/x.png)", 60).join("\n");
    assert!(out.contains("🖼 "), "marker present: {out:?}");
    assert!(out.contains("https://ex.com/x.png"), "url shown: {out:?}");
}

fn rs(content: &str, style: Style, href: Option<&str>) -> RichSpan {
    RichSpan::styled(content, style, href.map(str::to_string))
}

#[test]
fn wrap_keeps_link_targets_and_separator_styles() {
    let plain_style = Style::default();
    let link_style = Style::default().fg(Color::Blue);
    let spans = vec![
        rs("see ", plain_style, None),
        rs("the docs", link_style, Some("https://d")),
        rs(" now", plain_style, None),
    ];
    let rows = wrap_rich(&spans, 8);
    let texts: Vec<String> = rows.iter().map(|(s, _)| s.iter().map(|r| r.content.as_str()).collect()).collect();
    assert_eq!(texts, vec!["see the", "docs now"]);
    // "the" stays linked on the first row, "docs" on the second.
    assert_eq!(rows[0].1.len(), 1);
    assert_eq!((rows[0].1[0].start_col, rows[0].1[0].end_col), (4, 7));
    assert_eq!(rows[1].1.len(), 1);
    assert_eq!((rows[1].1[0].start_col, rows[1].1[0].end_col), (0, 4));
    assert_eq!(rows[1].1[0].url, "https://d");
    // The space joining "docs" and "now" is the plain one from the source.
    assert_eq!(rows[1].0[1].content, " now");
    assert_eq!(rows[1].0[1].style, plain_style);
}

#[test]
fn wrap_breaks_words_longer_than_the_width() {
    let spans = vec![rs("abcdefgh ij", Style::default(), None)];
    let rows = wrap_rich(&spans, 3);
    let texts: Vec<String> = rows.iter().map(|(s, _)| s.iter().map(|r| r.content.as_str()).collect()).collect();
    assert_eq!(texts, vec!["abc", "def", "gh", "ij"]);
}

#[test]
fn wrap_at_zero_width_keeps_the_runs() {
    let spans = vec![rs("a b", Style::default(), Some("u"))];
    let rows = wrap_rich(&spans, 0);
    assert_eq!(rows.len(), 1);
    assert_eq!(rows[0].0[0].content, "a b");
    assert_eq!((rows[0].1[0].start_col, rows[0].1[0].end_col), (0, 3));
}

#[test]
fn blank_input_wraps_to_one_empty_row() {
    let rows = wrap_rich(&[rs("   ", Style::default(), None)], 10);
    assert_eq!(rows.len(), 1);
    assert!(rows[0].0.is_empty());
}

#[test]
fn link_runs_merge_adjacent_spans_with_one_target() {
    let spans = vec![
        rs("ab", Style::default(), Some("x")),
        rs("cd", Style::default().fg(Color::Red), Some("x")),
        rs("ef", Style::default(), None),
        rs("g", Style::default(), Some("y")),
        rs("", Style::default(), Some("z")),
    ];
    let links = link_runs(&spans, 5);
    let got: Vec<(u16, u16, String)> = links.iter().map(|l| (l.start_col, l.end_col, l.url.clone())).collect();
    assert_eq!(got, vec![(5, 9, "x".to_string()), (11, 12, "y".to_string())]);
}

#[test]
fn linkify_trims_trailing_punctuation_and_links_every_url() {
    let base = Style::default();
    let link = StyleBundle::new().fg(Color::Blue);
    let spans = linkify("go to http://a.b/c). ok", base, link);
    let got: Vec<(&str, Option<&str>)> = spans.iter().map(|s| (s.content.as_str(), s.href.as_deref())).collect();
    assert_eq!(got, vec![("go to ", None), ("http://a.b/c", Some("http://a.b/c")), ("). ok", None)]);
    assert_eq!(spans[1].style.fg, Some(Color::Blue));
    // Every bare URL is linked, an `https` one before an `http` one too.
    let mixed = linkify("https://a.com and http://b.com", base, link);
    let got: Vec<(&str, Option<&str>)> = mixed.iter().map(|s| (s.content.as_str(), s.href.as_deref())).collect();
    assert_eq!(
        got,
        vec![("https://a.com", Some("https://a.com")), (" and ", None), ("http://b.com", Some("http://b.com"))]
    );
    assert_eq!(mixed[0].style, link.apply(base));
    assert_eq!(mixed[2].style, link.apply(base));
    // Empty text is one empty run.
    assert_eq!(linkify("", base, link).len(), 1);
}

#[test]
fn trim_spans_trims_the_edges_and_drops_empty_runs() {
    let s = Style::default();
    let out = trim_spans(vec![rs("  a ", s, None), rs("   ", s, None), rs(" b  ", s, None)]);
    let got: Vec<&str> = out.iter().map(|r| r.content.as_str()).collect();
    assert_eq!(got, vec!["a ", "   ", " b"]);
    let edges = trim_spans(vec![rs("  ", s, None), rs("x", s, None), rs(" ", s, None)]);
    let got: Vec<&str> = edges.iter().map(|r| r.content.as_str()).collect();
    assert_eq!(got, vec!["x"]);
}

#[test]
fn table_columns_shrink_widest_first() {
    let s = Style::default();
    let table = TableData {
        aligns: vec![ColumnAlign::Unset, ColumnAlign::Right],
        header: vec![vec![rs("aaaaaaaa", s, None)], vec![rs("bb", s, None)]],
        rows: vec![vec![vec![rs("x", s, None)], vec![rs("y", s, None)]]],
    };
    let theme = Theme::default();
    // 3 * 2 + 1 = 7 columns of chrome; 13 leaves a budget of 6 for content.
    let rows = render_table_linked(&table, 13, &theme);
    let texts: Vec<String> = rows.iter().map(|(s, _)| s.iter().map(|r| r.content.as_str()).collect()).collect();
    assert_eq!(texts[0], "╭──────┬────╮");
    assert_eq!(texts[1], "│ aaaa │ bb │");
    assert_eq!(texts[2], "│ aaaa │    │");
    assert_eq!(texts[3], "├──────┼────┤");
    assert_eq!(texts[4], "│ x    │  y │");
    assert_eq!(texts[5], "╰──────┴────╯");
    assert_eq!(rows[0].0[0].style.fg, Some(theme.dim));
}

#[test]
fn streaming_preserves_link_targets_across_tail_settling_and_resize() {
    let theme = Theme::default();
    let sheet = StyleSheet::from_theme(&theme);
    let mut state = MarkdownState::new();

    state.push_str("see <https://docs.rs/");
    frame(&mut state, 40, &theme, &sheet);

    state.push_str("tuika>.\n\nnext");
    frame(&mut state, 40, &theme, &sheet);
    assert_eq!(state.links().len(), 1);
    assert_eq!(state.links()[0].url, "https://docs.rs/tuika");

    frame(&mut state, 20, &theme, &sheet);
    assert!(!state.links().is_empty());
    assert!(state.links().iter().all(|link| link.url == "https://docs.rs/tuika"));
}

#[test]
fn sheet_change_invalidates_stream_cache() {
    let theme = Theme::default();
    let mut state = MarkdownState::new();
    state.set("A [link](https://ex.com) in prose.");

    let default_sheet = StyleSheet::from_theme(&theme);
    let link_fg = |lines: &[Line]| {
        lines
            .iter()
            .flat_map(|l| &l.spans)
            .find(|s| s.content.contains("link"))
            .expect("link span")
            .style
            .fg
    };
    assert_eq!(link_fg(frame(&mut state, 60, &theme, &default_sheet)), Some(theme.code.link));

    let recolored = StyleSheet { link: StyleBundle::new().fg(Color::Green), ..default_sheet };
    assert_eq!(
        link_fg(frame(&mut state, 60, &theme, &recolored)),
        Some(Color::Green),
        "a stylesheet change must invalidate the stream cache"
    );
}

#[test]
fn streaming_matches_one_shot_render() {
    let full = "# Heading\n\nA paragraph of text.\n\n```rust\nfn main() {}\n```\n\nDone.";
    let theme = Theme::default();
    let one_shot: Vec<String> =
        to_lines(full, 40, &theme, &StyleSheet::from_theme(&theme)).iter().map(text).collect();

    let mut state = MarkdownState::new();
    let mut streamed = Vec::new();
    for chunk in ["# Head", "ing\n\nA para", "graph of text.\n\n```rus", "t\nfn main() {}\n```\n\nDone."] {
        state.push_str(chunk);
        streamed = frame(&mut state, 40, &theme, &StyleSheet::from_theme(&theme)).iter().map(text).collect();
    }
    assert_eq!(streamed, one_shot);
}

struct CountingRenderer(std::rc::Rc<std::cell::Cell<usize>>);

impl MarkdownBlockRenderer for CountingRenderer {
    fn render(&self, block: MarkdownBlock<'_>, context: MarkdownBlockContext<'_>) -> Option<Vec<Line>> {
        let MarkdownBlock::Fenced { language, .. } = block else {
            return None;
        };
        (language == "diagram").then(|| {
            self.0.set(self.0.get() + 1);
            vec![Line::raw(&format!("width {}", context.width))]
        })
    }
}

#[test]
fn streaming_caches_settled_rendered_blocks_until_resize() {
    let calls = std::rc::Rc::new(std::cell::Cell::new(0));
    let theme = Theme::default();
    let sheet = StyleSheet::from_theme(&theme);
    let counting = CountingRenderer(std::rc::Rc::clone(&calls));
    let mut state = MarkdownState::new().with_block_renderer(&counting);
    state.set("```diagram\nA --> B\n```\n\n");

    let _ = frame(&mut state, 40, &theme, &sheet);
    let _ = frame(&mut state, 40, &theme, &sheet);
    assert_eq!(calls.get(), 1, "settled block should stay flattened");

    let _ = frame(&mut state, 20, &theme, &sheet);
    assert_eq!(calls.get(), 2, "resize must lay out the block again");
}

#[test]
fn streaming_an_indented_line_one_char_at_a_time_matches_one_shot() {
    let full = "## Steps\n\n1. one\n   - nested\n2. two\n";
    let theme = Theme::default();
    let sheet = StyleSheet::from_theme(&theme);
    let one_shot: Vec<String> = to_lines(full, 40, &theme, &sheet).iter().map(text).collect();

    let mut state = MarkdownState::new();
    for ch in full.chars() {
        state.push_str(&ch.to_string());
        let _ = frame(&mut state, 40, &theme, &sheet);
    }
    let streamed: Vec<String> = frame(&mut state, 40, &theme, &sheet).iter().map(text).collect();
    assert_eq!(streamed, one_shot);
}

#[test]
fn streaming_inline_html_one_char_at_a_time_matches_one_shot() {
    let full = "Intro <b>bold <i>both</i></b> tail.\n\n\
                <a href=\"https://ex.com\">link</a> then H<sub>2</sub>O.\n\n\
                <b>never closed\n\nplain after.\n";
    let theme = Theme::default();
    let sheet = StyleSheet::from_theme(&theme);
    let styled = |lines: &[Line]| -> Vec<(String, Style)> {
        lines.iter().flat_map(|l| &l.spans).map(|s| (s.content.to_string(), s.style)).collect()
    };
    let one_shot = styled(&to_lines(full, 40, &theme, &sheet));

    let mut state = MarkdownState::new();
    for ch in full.chars() {
        state.push_str(&ch.to_string());
        let _ = frame(&mut state, 40, &theme, &sheet);
    }
    let streamed = styled(frame(&mut state, 40, &theme, &sheet));
    assert_eq!(streamed, one_shot);
}

struct CountingHtml(std::rc::Rc<std::cell::Cell<usize>>);

impl MarkdownBlockRenderer for CountingHtml {
    fn render(&self, block: MarkdownBlock<'_>, _: MarkdownBlockContext<'_>) -> Option<Vec<Line>> {
        let MarkdownBlock::Html { source } = block else {
            return None;
        };
        self.0.set(self.0.get() + 1);
        Some(vec![Line::raw(source.trim())])
    }
}

#[test]
fn streaming_html_blocks_match_one_shot_and_cache_settled_ones() {
    let full = "intro\n\n<details>\n<summary>more</summary>\n</details>\n\ndone\n";
    let theme = Theme::default();
    let sheet = StyleSheet::from_theme(&theme);
    let one_shot_renderer = CountingHtml(std::rc::Rc::new(std::cell::Cell::new(0)));
    let one_shot: Vec<String> =
        to_lines_with(full, 40, &theme, &sheet, Renderers::new().renderer(&one_shot_renderer))
            .iter()
            .map(text)
            .collect();

    let calls = std::rc::Rc::new(std::cell::Cell::new(0));
    let counting = CountingHtml(std::rc::Rc::clone(&calls));
    let mut state = MarkdownState::new().with_block_renderer(&counting);
    for ch in full.chars() {
        state.push_str(&ch.to_string());
        let _ = frame(&mut state, 40, &theme, &sheet);
    }
    let streamed: Vec<String> = frame(&mut state, 40, &theme, &sheet).iter().map(text).collect();
    assert_eq!(streamed, one_shot);

    let settled = calls.get();
    let _ = frame(&mut state, 40, &theme, &sheet);
    assert_eq!(calls.get(), settled, "a settled HTML block stays flattened");
}

#[test]
fn streaming_then_resize_matches_one_shot_at_new_width() {
    let theme = Theme::default();
    let chunks = [
        "# A wide head",
        "ing that wraps when narrow\n\nA para",
        "graph long enough to wrap differently at 24 columns than at 60.\n\n",
        "- a bullet that also wraps\n\nDone.",
    ];
    let full: String = chunks.concat();

    let mut state = MarkdownState::new();
    for chunk in chunks {
        state.push_str(chunk);
        let _ = frame(&mut state, 60, &theme, &StyleSheet::from_theme(&theme));
    }
    let resized: Vec<String> =
        frame(&mut state, 24, &theme, &StyleSheet::from_theme(&theme)).iter().map(text).collect();
    let one_shot: Vec<String> =
        to_lines(&full, 24, &theme, &StyleSheet::from_theme(&theme)).iter().map(text).collect();
    assert_eq!(resized, one_shot, "resized stream must equal a one-shot render at the new width");
}

#[test]
fn streaming_commits_a_stable_prefix() {
    let theme = Theme::default();
    let mut state = MarkdownState::new();
    state.push_str("First paragraph.\n\nSecond a");
    let _ = frame(&mut state, 40, &theme, &StyleSheet::from_theme(&theme));
    assert!(state.stable_len() > 0, "expected a committed prefix");
    assert!(!state.stable().is_empty());
}

#[test]
fn streaming_a_list_across_a_blank_line_keeps_its_numbering() {
    let theme = Theme::default();
    let sheet = StyleSheet::from_theme(&theme);
    let doc = "1. first\n\n2. second\n\n3. third\n";
    let mut state = MarkdownState::new();
    for delta in doc.split_inclusive('\n') {
        state.push_str(delta);
        let _ = frame(&mut state, 40, &theme, &sheet);
    }
    let streamed: Vec<String> = frame(&mut state, 40, &theme, &sheet).iter().map(text).collect();
    let one_shot: Vec<String> = to_lines(doc, 40, &theme, &sheet).iter().map(text).collect();
    assert_eq!(streamed, one_shot);
    assert!(streamed.iter().any(|line| line.contains("2.")), "the second item keeps its number: {streamed:?}");
}

#[test]
fn theme_change_invalidates_cache() {
    let mut state = MarkdownState::new();
    state.push_str("Para one.\n\nPara two.\n\ntail");
    let a = Theme::default();
    let _ = frame(&mut state, 40, &a, &StyleSheet::from_theme(&a));
    assert!(state.stable_len() > 0);

    let mut b = Theme::default();
    b.code.heading = Color::Indexed(200);
    let _ = frame(&mut state, 40, &b, &StyleSheet::from_theme(&b));
    assert_eq!(state.cached_theme(), Some(b));
}

#[test]
fn streamed_tail_is_separated_from_settled_lines_by_a_blank() {
    let theme = Theme::default();
    let sheet = StyleSheet::from_theme(&theme);
    let mut state = MarkdownState::new();
    state.push_str("one\n\ntwo");
    let lines: Vec<String> = frame(&mut state, 40, &theme, &sheet).iter().map(text).collect();
    assert_eq!(lines, vec!["one".to_string(), String::new(), "two".to_string()]);
    assert_eq!(state.stable_len(), "one\n\n".len());
}

#[test]
fn set_drops_the_settled_prefix() {
    let theme = Theme::default();
    let sheet = StyleSheet::from_theme(&theme);
    let mut state = MarkdownState::new();
    state.push_str("one\n\ntwo");
    let _ = frame(&mut state, 40, &theme, &sheet);
    state.set("fresh");
    assert_eq!(state.stable_len(), 0);
    assert!(state.stable().is_empty());
    assert_eq!(state.source(), "fresh");
    let lines: Vec<String> = frame(&mut state, 40, &theme, &sheet).iter().map(text).collect();
    assert_eq!(lines, vec!["fresh".to_string()]);
}

#[test]
fn flattening_in_batches_matches_flattening_at_once() {
    let theme = Theme::default();
    let sheet = StyleSheet::from_theme(&theme);
    let linked = |label: &str, url: &str| MdItem::Prose {
        spans: vec![RichSpan::styled(label, Style::default(), Some(url.to_string()))],
        indent: 0,
    };
    let items = vec![
        linked("first", "https://a.example"),
        MdItem::Blank,
        linked("second", "https://b.example"),
    ];
    let renderers = Renderers::new();
    let (all, all_links) = flatten_linked(&items, 40, &theme, &sheet, &renderers);
    let (head, head_links) = flatten_linked(&items[..1], 40, &theme, &sheet, &renderers);
    // The second batch is told that lines come before it, so its opening
    // blank still separates.
    let (tail, tail_links) = flatten_linked_after(&items[1..], 40, &theme, &sheet, &renderers, true);

    let mut batched: Vec<String> = head.iter().map(text).collect();
    batched.extend(tail.iter().map(text));
    assert_eq!(batched, all.iter().map(text).collect::<Vec<_>>());

    let base = head.len() as u16;
    let mut links: Vec<(u16, u16, u16, String)> =
        head_links.iter().map(|l| (l.line, l.start_col, l.end_col, l.url.clone())).collect();
    links.extend(tail_links.iter().map(|l| (l.line + base, l.start_col, l.end_col, l.url.clone())));
    let expected: Vec<(u16, u16, u16, String)> =
        all_links.iter().map(|l| (l.line, l.start_col, l.end_col, l.url.clone())).collect();
    assert_eq!(links, expected);
    assert_eq!(expected[1].0, 2);
}

#[test]
fn a_blank_after_a_dropped_html_block_leaves_no_gap_at_the_top() {
    let theme = Theme::default();
    let sheet = StyleSheet::from_theme(&theme);
    let items = vec![
        MdItem::Html { source: "<div>x</div>".to_string(), indent: 0 },
        MdItem::Blank,
        MdItem::Prose { spans: vec![RichSpan::styled("b", Style::default(), None)], indent: 0 },
    ];
    let (lines, links) = flatten_linked(&items, 40, &theme, &sheet, &Renderers::new());
    assert_eq!(lines.iter().map(text).collect::<Vec<_>>(), vec!["b"]);
    assert!(links.is_empty());
}

#[test]
fn a_later_frame_keeps_the_settled_lines_at_the_top() {
    let theme = Theme::default();
    let sheet = StyleSheet::from_theme(&theme);
    let mut state = MarkdownState::new();
    state.push_str("# Title\n\nfirst paragraph\n\nin flight");
    let first: Vec<String> = frame(&mut state, 40, &theme, &sheet).iter().map(text).collect();
    state.push_str(" and more\n\nlast");
    let second: Vec<String> = frame(&mut state, 40, &theme, &sheet).iter().map(text).collect();
    assert_eq!(first[..3], second[..3]);
    assert_eq!(second[0], "Title");
    assert_eq!(second.last().map(String::as_str), Some("last"));
}

#[test]
fn a_frame_before_anything_settles_matches_the_one_shot_render() {
    let source = "A paragraph with https://example.com/path in it,\nstill going";
    let theme = Theme::default();
    let sheet = StyleSheet::from_theme(&theme);
    let (lines, links) = to_linked_lines(source, 20, &theme, &sheet);
    let mut state = MarkdownState::new();
    state.push_str(source);
    let streamed: Vec<String> = frame(&mut state, 20, &theme, &sheet).iter().map(text).collect();
    assert_eq!(streamed, lines.iter().map(text).collect::<Vec<_>>());
    let key = |l: &BufferLink| (l.line, l.start_col, l.end_col, l.url.clone());
    assert!(!links.is_empty());
    assert_eq!(
        state.links().iter().map(key).collect::<Vec<_>>(),
        links.iter().map(key).collect::<Vec<_>>()
    );
}
