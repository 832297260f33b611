//! CommonMark parsing: pulldown-cmark's event stream, with tables,
//! strikethrough and task lists enabled, as this renderer's events.

use vstd::prelude::*;
use pulldown_cmark::{Alignment as PdAlign, BlockQuoteKind, CodeBlockKind, Event as PdEvent, HeadingLevel, MetadataBlockKind, Options, Parser, Tag, TagEnd};
use super::item::ColumnAlign;
use super::parse::{CodeKind, MdEvent, MdEventV, MdTag, MdTagEnd, event_views};

verus! {

#[verifier::external_type_specification]
#[verifier::external_body]
pub struct ExTag<'a>(Tag<'a>);

#[verifier::external_type_specification]
pub struct ExHeadingLevel(HeadingLevel);

#[verifier::external_type_specification]
pub struct ExBlockQuoteKind(BlockQuoteKind);

#[verifier::external_type_specification]
pub struct ExMetadataBlockKind(MetadataBlockKind);

#[verifier::external_type_specification]
pub struct ExTagEnd(TagEnd);

/// The events pulldown-cmark reports for `source` (tables, strikethrough
/// and task lists on), each as this renderer's event.
pub uninterp spec fn commonmark(source: Seq<char>) -> Seq<MdEventV>;

/// The CommonMark events of `source`: pulldown-cmark's `Parser::new_ext`
/// with tables, strikethrough and task lists on, run over the whole text,
/// each event moved into this renderer's event of the same kind (math and
/// footnote references become `Other`). Claimed: the result is what
/// [`commonmark`] names for the text.
#[verifier::external_body]
pub(crate) fn commonmark_events(source: &str) -> (events: Vec<MdEvent>)
    ensures
        event_views(events@) == commonmark(source@),
{
    let opts = Options::ENABLE_TABLES | Options::ENABLE_STRIKETHROUGH | Options::ENABLE_TASKLISTS;
    let convert = |e: PdEvent<'_>| match e {
        PdEvent::Start(t) => MdEvent::Start(md_tag(t)),
        PdEvent::End(t) => MdEvent::End(md_tag_end(t)),
        PdEvent::Text(t) => MdEvent::Text(t.into_string()),
        PdEvent::Code(t) => MdEvent::Code(t.into_string()),
        PdEvent::Html(t) => MdEvent::Html(t.into_string()),
        PdEvent::InlineHtml(t) => MdEvent::InlineHtml(t.into_string()),
        PdEvent::SoftBreak => MdEvent::SoftBreak,
        PdEvent::HardBreak => MdEvent::HardBreak,
        PdEvent::Rule => MdEvent::Rule,
        PdEvent::TaskListMarker(done) => MdEvent::TaskListMarker(done),
        _ => MdEvent::Other,
    };
    Parser::new_ext(source, opts).map(convert).collect()
}

/// The end tag pulldown-cmark pairs with a start tag (`Tag::to_end`).
#[verifier::external_body]
fn tag_end_of(t: &Tag<'_>) -> TagEnd {
    t.to_end()
}

/// A fenced code block's info string moved into a `String`, else indented.
#[verifier::external_body]
fn code_kind(t: Tag<'_>) -> CodeKind {
    match t {
        Tag::CodeBlock(CodeBlockKind::Fenced(info)) => CodeKind::Fenced(info.into_string()),
        _ => CodeKind::Indented,
    }
}

/// A list's start number (`None` when bulleted, or for another tag).
#[verifier::external_body]
fn list_start(t: Tag<'_>) -> Option<u64> {
    match t {
        Tag::List(start) => start,
        _ => None,
    }
}

/// A link's or an image's destination moved into a `String` (empty for
/// another tag).
#[verifier::external_body]
fn destination(t: Tag<'_>) -> String {
    match t {
        Tag::Link { dest_url, .. } | Tag::Image { dest_url, .. } => dest_url.into_string(),
        _ => String::new(),
    }
}

/// A table's column alignments as [`ColumnAlign`]s (none for another tag).
#[verifier::external_body]
fn column_aligns(t: Tag<'_>) -> Vec<ColumnAlign> {
    let mut out = Vec::new();
    if let Tag::Table(aligns) = t {
        for a in aligns {
            out.push(match a {
                PdAlign::None => ColumnAlign::Unset,
                PdAlign::Left => ColumnAlign::Left,
                PdAlign::Center => ColumnAlign::Center,
                PdAlign::Right => ColumnAlign::Right,
            });
        }
    }
    out
}

/// A heading level as its number.
fn heading_number(l: HeadingLevel) -> (n: u8)
    ensures
        1 <= n <= 6,
{
    match l {
        HeadingLevel::H1 => 1,
        HeadingLevel::H2 => 2,
        HeadingLevel::H3 => 3,
        HeadingLevel::H4 => 4,
        HeadingLevel::H5 => 5,
        HeadingLevel::H6 => 6,
    }
}

/// A pulldown-cmark start tag as this renderer's tag of the same kind,
/// told apart by the end tag it pairs with; tags not rendered become
/// `Other`.
fn md_tag(t: Tag<'_>) -> MdTag {
    match tag_end_of(&t) {
        TagEnd::Paragraph => MdTag::Paragraph,
        TagEnd::Heading(level) => MdTag::Heading(heading_number(level)),
        TagEnd::BlockQuote(_) => MdTag::BlockQuote,
        TagEnd::CodeBlock => MdTag::CodeBlock(code_kind(t)),
        TagEnd::HtmlBlock => MdTag::HtmlBlock,
        TagEnd::List(_) => MdTag::List(list_start(t)),
        TagEnd::Item => MdTag::Item,
        TagEnd::Emphasis => MdTag::Emphasis,
        TagEnd::Strong => MdTag::Strong,
        TagEnd::Strikethrough => MdTag::Strikethrough,
        TagEnd::Link => MdTag::Link(destination(t)),
        TagEnd::Image => MdTag::Image(destination(t)),
        TagEnd::Table => MdTag::Table(column_aligns(t)),
        TagEnd::TableHead => MdTag::TableHead,
        TagEnd::TableRow => MdTag::TableRow,
        TagEnd::TableCell => MdTag::TableCell,
        _ => MdTag::Other,
    }
}

/// A pulldown-cmark end tag as this renderer's end tag of the same kind;
/// tags not rendered become `Other`.
fn md_tag_end(t: TagEnd) -> MdTagEnd {
    match t {
        TagEnd::Paragraph => MdTagEnd::Paragraph,
        TagEnd::Heading(_) => MdTagEnd::Heading,
        TagEnd::BlockQuote(_) => MdTagEnd::BlockQuote,
        TagEnd::CodeBlock => MdTagEnd::CodeBlock,
        TagEnd::HtmlBlock => MdTagEnd::HtmlBlock,
        TagEnd::List(_) => MdTagEnd::List,
        TagEnd::Item => MdTagEnd::Item,
        TagEnd::Emphasis => MdTagEnd::Emphasis,
        TagEnd::Strong => MdTagEnd::Strong,
        TagEnd::Strikethrough => MdTagEnd::Strikethrough,
        TagEnd::Link => MdTagEnd::Link,
        TagEnd::Image => MdTagEnd::Image,
        TagEnd::Table => MdTagEnd::Table,
        TagEnd::TableHead => MdTagEnd::TableHead,
        TagEnd::TableRow => MdTagEnd::TableRow,
        TagEnd::TableCell => MdTagEnd::TableCell,
        _ => MdTagEnd::Other,
    }
}

} // verus!
