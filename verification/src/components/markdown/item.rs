//! The width-independent pieces both markdown passes speak: styled runs that
//! may carry a hyperlink target, and the link runs that survive wrapping.

use vstd::prelude::*;
use crate::style::Style;
use crate::components::code_block::{CodeRow, LineView, code_rows_view};

verus! {

/// Columns of indentation added per level of list or block-quote nesting.
pub const INDENT: u16 = 2;

/// An inline run that may carry a hyperlink target (`href`), kept through
/// wrapping so the visible label can differ from the destination.
#[derive(Debug)]
pub struct RichSpan {
    pub content: String,
    pub style: Style,
    pub href: Option<String>,
}

/// A run as values: its text, style and link target.
pub type RichView = (Seq<char>, Style, Option<Seq<char>>);

pub open spec fn href_view(h: Option<String>) -> Option<Seq<char>> {
    match h {
        Some(s) => Some(s@),
        None => None,
    }
}

impl View for RichSpan {
    type V = RichView;

    open spec fn view(&self) -> RichView {
        (self.content@, self.style, href_view(self.href))
    }
}

pub open spec fn rich_views(v: Seq<RichSpan>) -> Seq<RichView> {
    v.map_values(|s: RichSpan| s@)
}

/// A copy of an optional link target.
pub fn clone_href(h: &Option<String>) -> (r: Option<String>)
    ensures
        href_view(r) == href_view(*h),
{
    match h {
        Some(s) => Some(s.clone()),
        None => None,
    }
}

/// Whether two optional link targets are equal.
pub fn same_href(a: &Option<String>, b: &Option<String>) -> (r: bool)
    ensures
        r == (href_view(*a) == href_view(*b)),
{
    match (a, b) {
        (Some(x), Some(y)) => x.eq(y),
        (None, None) => true,
        _ => false,
    }
}

impl Clone for RichSpan {
    fn clone(&self) -> (s: Self)
        ensures
            s@ == self@,
    {
        RichSpan { content: self.content.clone(), style: self.style, href: clone_href(&self.href) }
    }
}

impl RichSpan {
    /// A run of `content` in `style`, linking to `href` when set.
    pub fn styled(content: &str, style: Style, href: Option<String>) -> (s: RichSpan)
        ensures
            s.content@ == content@,
            s.style == style,
            s.href == href,
    {
        RichSpan { content: content.to_owned(), style, href }
    }
}

/// A hyperlink run on a rendered line: columns `start_col..end_col` of row
/// `line` open `url`.
#[derive(Debug)]
pub struct BufferLink {
    pub line: u16,
    pub start_col: u16,
    pub end_col: u16,
    pub url: String,
}

/// A link run as values: line, start column, end column, target.
pub type LinkView = (int, int, int, Seq<char>);

impl View for BufferLink {
    type V = LinkView;

    open spec fn view(&self) -> LinkView {
        (self.line as int, self.start_col as int, self.end_col as int, self.url@)
    }
}

pub open spec fn link_views(v: Seq<BufferLink>) -> Seq<LinkView> {
    v.map_values(|l: BufferLink| l@)
}

impl Clone for BufferLink {
    fn clone(&self) -> (s: Self)
        ensures
            s@ == self@,
    {
        BufferLink { line: self.line, start_col: self.start_col, end_col: self.end_col, url: self.url.clone() }
    }
}


/// How a table column aligns its cells; `Unset` when the delimiter row says
/// nothing (laid out as left).
#[derive(Clone, Copy, Debug, PartialEq, Eq, Structural)]
pub enum ColumnAlign {
    Unset,
    Left,
    Center,
    Right,
}

/// One table cell's inline content, already styled.
pub type Cell = Vec<RichSpan>;

/// A table row as values.
pub open spec fn cells_view(row: Seq<Cell>) -> Seq<Seq<RichView>> {
    row.map_values(|c: Cell| rich_views(c@))
}

/// Table contents captured while parsing: column alignments, the header
/// row and the body rows, each cell a run of styled spans.
#[derive(Debug)]
pub struct TableData {
    pub aligns: Vec<ColumnAlign>,
    pub header: Vec<Cell>,
    pub rows: Vec<Vec<Cell>>,
}

/// A table as values.
pub type TableView = (Seq<ColumnAlign>, Seq<Seq<RichView>>, Seq<Seq<Seq<RichView>>>);

impl View for TableData {
    type V = TableView;

    open spec fn view(&self) -> TableView {
        (self.aligns@, cells_view(self.header@), self.rows@.map_values(|r: Vec<Cell>| cells_view(r@)))
    }
}


/// A parsed, width-independent markdown block; wrapping and table layout
/// happen when it is flattened against a width.
#[derive(Debug)]
pub enum MdItem {
    /// Word-wrappable prose: a paragraph line, heading, list item or quote line.
    Prose { spans: Vec<RichSpan>, indent: u16 },
    /// A fenced or indented code block: its language and source, and the
    /// themed rows drawn when no block renderer takes it.
    CodeBlock { language: String, source: String, fallback: Vec<CodeRow>, indent: u16 },
    /// A table, laid out to the width when flattened.
    Table { table: TableData, indent: u16 },
    /// A raw block-level HTML run, kept verbatim for a block renderer.
    Html { source: String, indent: u16 },
    /// A blank spacer row between blocks.
    Blank,
}

/// A block as values.
pub enum MdItemView {
    Prose(Seq<RichView>, int),
    CodeBlock(Seq<char>, Seq<char>, Seq<(LineView, int)>, int),
    Table(TableView, int),
    Html(Seq<char>, int),
    Blank,
}

impl View for MdItem {
    type V = MdItemView;

    open spec fn view(&self) -> MdItemView {
        match self {
            MdItem::Prose { spans, indent } => MdItemView::Prose(rich_views(spans@), *indent as int),
            MdItem::CodeBlock { language, source, fallback, indent } => MdItemView::CodeBlock(
                language@,
                source@,
                code_rows_view(fallback@),
                *indent as int,
            ),
            MdItem::Table { table, indent } => MdItemView::Table(table@, *indent as int),
            MdItem::Html { source, indent } => MdItemView::Html(source@, *indent as int),
            MdItem::Blank => MdItemView::Blank,
        }
    }
}

pub open spec fn item_views(v: Seq<MdItem>) -> Seq<MdItemView> {
    v.map_values(|i: MdItem| i@)
}

} // verus!
