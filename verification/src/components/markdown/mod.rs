//! Markdown rendering support: whole strings rendered in one call, and the
//! pieces streamed rendering is built from.

pub mod item;
pub mod flatten;
pub mod table;
pub mod parse;
pub mod html;
pub mod stream;
pub mod commonmark;

use vstd::prelude::*;
use crate::components::code_block::{CodeHighlighter, LineView};
use crate::style::{StyleSheet, Theme};
use crate::text::Line;
use self::commonmark::{commonmark, commonmark_events};
use self::flatten::{lines_view, MarkdownBlockRenderer, Renderers};
use self::item::{link_views, BufferLink, LinkView};
use self::parse::{events_to_linked_lines, rendered_from};

verus! {

/// Render a whole markdown string to width-fitted styled lines in one call.
/// For streaming input, [`stream::MarkdownState`] caches the settled prefix
/// instead of re-parsing the whole buffer each frame.
pub fn to_lines(source: &str, width: u16, theme: &Theme, sheet: &StyleSheet, highlighter: CodeHighlighter) -> (out: Vec<
    Line,
>)
    ensures
        exists|links: Seq<LinkView>|
            #[trigger] rendered_from(
                commonmark(source@),
                width as int,
                *theme,
                *sheet,
                highlighter is Plain,
                0,
                (lines_view(out@), links),
            ),
{
    let (lines, links) = to_linked_lines(source, width, theme, sheet, highlighter);
    proof {
        assert(rendered_from(
            commonmark(source@),
            width as int,
            *theme,
            *sheet,
            highlighter is Plain,
            0,
            (lines_view(lines@), link_views(links@)),
        ));
    }
    lines
}

/// Render markdown with one host-supplied structured-block renderer, asked
/// for fenced code and raw HTML blocks; where it declines, a fence keeps the
/// ordinary code-block fallback and raw block HTML is dropped.
pub fn to_lines_with_renderer(
    source: &str,
    width: u16,
    theme: &Theme,
    sheet: &StyleSheet,
    highlighter: CodeHighlighter,
    block_renderer: &dyn MarkdownBlockRenderer,
) -> (out: Vec<Line>)
    ensures
        exists|links: Seq<LinkView>, renderers: int|
            #[trigger] rendered_from(
                commonmark(source@),
                width as int,
                *theme,
                *sheet,
                highlighter is Plain,
                renderers,
                (lines_view(out@), links),
            ),
{
    let renderers = Renderers::new().renderer(block_renderer);
    to_lines_with(source, width, theme, sheet, highlighter, renderers)
}

/// Render markdown with an ordered chain of host-supplied [`Renderers`].
pub fn to_lines_with(
    source: &str,
    width: u16,
    theme: &Theme,
    sheet: &StyleSheet,
    highlighter: CodeHighlighter,
    renderers: Renderers<'_>,
) -> (out: Vec<Line>)
    ensures
        exists|links: Seq<LinkView>|
            #[trigger] rendered_from(
                commonmark(source@),
                width as int,
                *theme,
                *sheet,
                highlighter is Plain,
                renderers.blocks@.len() as int,
                (lines_view(out@), links),
            ),
{
    let ghost given = renderers.blocks@.len() as int;
    let (lines, links) = to_linked_lines_with(source, width, theme, sheet, highlighter, renderers);
    proof {
        assert(rendered_from(
            commonmark(source@),
            width as int,
            *theme,
            *sheet,
            highlighter is Plain,
            given,
            (lines_view(lines@), link_views(links@)),
        ));
    }
    lines
}

/// Like [`to_lines`], also returning a [`BufferLink`] for every hyperlink
/// run (labeled `[text](url)` and bare URLs) that survives wrapping.
pub fn to_linked_lines(
    source: &str,
    width: u16,
    theme: &Theme,
    sheet: &StyleSheet,
    highlighter: CodeHighlighter,
) -> (out: (Vec<Line>, Vec<BufferLink>))
    ensures
        rendered_from(
            commonmark(source@),
            width as int,
            *theme,
            *sheet,
            highlighter is Plain,
            0,
            (lines_view(out.0@), link_views(out.1@)),
        ),
{
    to_linked_lines_with(source, width, theme, sheet, highlighter, Renderers::new())
}

/// Like [`to_linked_lines`], with a host-supplied [`MarkdownBlockRenderer`].
pub fn to_linked_lines_with_renderer(
    source: &str,
    width: u16,
    theme: &Theme,
    sheet: &StyleSheet,
    highlighter: CodeHighlighter,
    block_renderer: &dyn MarkdownBlockRenderer,
) -> (out: (Vec<Line>, Vec<BufferLink>))
    ensures
        exists|renderers: int|
            #[trigger] rendered_from(
                commonmark(source@),
                width as int,
                *theme,
                *sheet,
                highlighter is Plain,
                renderers,
                (lines_view(out.0@), link_views(out.1@)),
            ),
{
    let renderers = Renderers::new().renderer(block_renderer);
    to_linked_lines_with(source, width, theme, sheet, highlighter, renderers)
}

/// Like [`to_linked_lines`], with any chain of host-supplied [`Renderers`]:
/// the CommonMark events of `source` parsed into blocks and flattened at
/// `width`, the renderers asked in turn for code and HTML blocks.
pub fn to_linked_lines_with(
    source: &str,
    width: u16,
    theme: &Theme,
    sheet: &StyleSheet,
    highlighter: CodeHighlighter,
    renderers: Renderers<'_>,
) -> (out: (Vec<Line>, Vec<BufferLink>))
    ensures
        rendered_from(
            commonmark(source@),
            width as int,
            *theme,
            *sheet,
            highlighter is Plain,
            renderers.blocks@.len() as int,
            (lines_view(out.0@), link_views(out.1@)),
        ),
{
    let events = commonmark_events(source);
    events_to_linked_lines(events, width, theme, sheet, highlighter, &renderers)
}

} // verus!
