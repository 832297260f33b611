//! Pass two of markdown rendering: rich runs word-wrapped to a width, with
//! the hyperlink runs that survive the reflow.

use vstd::prelude::*;
use crate::style::Style;
use crate::graphemes::{grapheme_clusters, graphemes, views};
use crate::width::{str_cols, cap16, text_cols};
use crate::components::text::{
    CellMetrics, metrics_of, wrap_spec, wrap_cells, row_views, rows_chain, row_chain, lemma_wrap_chain, sadd,
};
use super::item::{
    RichSpan, RichView, BufferLink, LinkView, href_view, rich_views, link_views, clone_href, same_href, MdItem,
    MdItemView, item_views,
};
use super::table::{repeat, render_table_linked, render_table_spec, WrappedRows};
use crate::components::code_block::{CodeRow, LineView, plain_line, line_spans_view, code_rows_view};
use crate::style::{StyleSheet, Theme};
use crate::text::{Line, Span};

verus! {

/// A grapheme cell that remembers its run's style and link target.
pub type RichCell = (String, Style, Option<String>);

pub open spec fn rich_cell_views(v: Seq<RichCell>) -> Seq<RichView> {
    v.map_values(|c: RichCell| (c.0@, c.1, href_view(c.2)))
}

/// The grapheme cells of some runs, each carrying its run's style and target.
pub open spec fn rich_cells(spans: Seq<RichView>) -> Seq<RichView>
    decreases spans.len(),
{
    if spans.len() == 0 {
        seq![]
    } else {
        rich_cells(spans.drop_last()) + grapheme_clusters(spans.last().0).map_values(
            |g: Seq<char>| (g, spans.last().1, spans.last().2),
        )
    }
}

/// What the wrap solver reads of each cell.
pub open spec fn rich_metrics(cells: Seq<RichView>) -> Seq<CellMetrics> {
    cells.map_values(|c: RichView| metrics_of(c.0))
}

/// The cells of one wrapped row: its word ranges in order, each after the
/// first preceded by one space in the style and target of the whitespace
/// that separated the two words in the source.
pub open spec fn rich_row(cells: Seq<RichView>, row: Seq<(usize, usize)>) -> Seq<RichView>
    decreases row.len(),
{
    if row.len() == 0 {
        seq![]
    } else {
        let pre = rich_row(cells, row.drop_last());
        let joined = if row.len() > 1 {
            let ws = cells[row[row.len() - 2].1 as int];
            pre.push((seq![' '], ws.1, ws.2))
        } else {
            pre
        };
        joined + cells.subrange(row.last().0 as int, row.last().1 as int)
    }
}

/// Adjacent cells of equal style and target merged into one run each.
pub open spec fn rich_coalesce(cs: Seq<RichView>) -> Seq<RichView>
    decreases cs.len(),
{
    if cs.len() == 0 {
        seq![]
    } else {
        let r = rich_coalesce(cs.drop_last());
        let c = cs.last();
        if r.len() > 0 && r.last().1 == c.1 && r.last().2 == c.2 {
            r.update(r.len() - 1, (r.last().0 + c.0, c.1, c.2))
        } else {
            r.push(c)
        }
    }
}

/// Columns of one run, capped at `u16::MAX`.
pub open spec fn run_cols(s: RichView) -> int {
    cap16(text_cols(s.0) as int)
}

/// Column `col` advanced over `spans[a..b]`, saturating at `u16::MAX`.
pub open spec fn cols_between(spans: Seq<RichView>, a: int, b: int, col: int) -> int
    decreases b - a,
{
    if b <= a {
        col
    } else {
        sadd(cols_between(spans, a, b - 1, col), run_cols(spans[b - 1]))
    }
}

/// The end of the run of spans from `i` on that all link to `url`.
pub open spec fn href_run_end(spans: Seq<RichView>, i: int, url: Seq<char>) -> int
    decreases spans.len() - i,
{
    if i < 0 || i >= spans.len() || spans[i].2 != Some(url) {
        i
    } else {
        href_run_end(spans, i + 1, url)
    }
}

pub proof fn lemma_href_run_end(spans: Seq<RichView>, i: int, url: Seq<char>)
    requires
        0 <= i <= spans.len(),
    ensures
        i <= href_run_end(spans, i, url) <= spans.len(),
        i < spans.len() && spans[i].2 == Some(url) ==> i < href_run_end(spans, i, url),
    decreases spans.len() - i,
{
    if i < spans.len() && spans[i].2 == Some(url) {
        lemma_href_run_end(spans, i + 1, url);
    }
}

/// The hyperlink runs of `spans` from index `i`, starting at column `col`:
/// each maximal stretch of spans with the same target becomes one run of the
/// columns it covers (line 0; empty stretches make none).
pub open spec fn runs_from(spans: Seq<RichView>, i: int, col: int) -> Seq<LinkView>
    decreases spans.len() - i,
{
    if i < 0 || i >= spans.len() {
        seq![]
    } else {
        match spans[i].2 {
            None => runs_from(spans, i + 1, sadd(col, run_cols(spans[i]))),
            Some(url) => {
                let e = href_run_end(spans, i, url);
                proof {
                    lemma_href_run_end(spans, i, url);
                }
                if e <= i {
                    seq![]
                } else {
                    let c2 = cols_between(spans, i, e, col);
                    let rest = runs_from(spans, e, c2);
                    if c2 > col {
                        seq![(0int, col, c2, url)] + rest
                    } else {
                        rest
                    }
                }
            },
        }
    }
}

/// The rows `wrap_rich` produces: each row's runs and their link runs.
pub open spec fn wrap_rich_spec(spans: Seq<RichView>, width: int) -> Seq<(Seq<RichView>, Seq<LinkView>)> {
    if width == 0 {
        seq![(spans, runs_from(spans, 0, 0))]
    } else {
        let cells = rich_cells(spans);
        wrap_spec(rich_metrics(cells), width).map_values(
            |row: Seq<(usize, usize)>|
                {
                    let sp = rich_coalesce(rich_row(cells, row));
                    (sp, runs_from(sp, 0, 0))
                },
        )
    }
}

pub open spec fn rich_rows_view(v: Seq<(Vec<RichSpan>, Vec<BufferLink>)>) -> Seq<(Seq<RichView>, Seq<LinkView>)> {
    v.map_values(|r: (Vec<RichSpan>, Vec<BufferLink>)| (rich_views(r.0@), link_views(r.1@)))
}

/// The hyperlink runs in `spans`, with columns counted from `col_offset`.
pub fn link_runs(spans: &[RichSpan], col_offset: u16) -> (links: Vec<BufferLink>)
    ensures
        link_views(links@) == runs_from(rich_views(spans@), 0, col_offset as int),
{
    let ghost sv = rich_views(spans@);
    let mut links: Vec<BufferLink> = Vec::new();
    let mut col: u16 = col_offset;
    let mut i: usize = 0;
    while i < spans.len()
        invariant
            i <= spans@.len(),
            sv == rich_views(spans@),
            link_views(links@) + runs_from(sv, i as int, col as int) == runs_from(sv, 0, col_offset as int),
        decreases spans@.len() - i,
    {
        match &spans[i].href {
            None => {
                col = col.saturating_add(str_cols(spans[i].content.as_str()));
                i = i + 1;
            },
            Some(url) => {
                let url = url.clone();
                let ghost u = url@;
                let ghost i0 = i as int;
                let start = col;
                proof {
                    lemma_href_run_end(sv, i0, u);
                }
                let target = Some(url);
                while i < spans.len() && same_href(&spans[i].href, &target)
                    invariant
                        i0 <= i <= spans@.len(),
                        sv == rich_views(spans@),
                        href_view(target) == Some(u),
                        href_run_end(sv, i0, u) == href_run_end(sv, i as int, u),
                        col == cols_between(sv, i0, i as int, start as int),
                    decreases spans@.len() - i,
                {
                    col = col.saturating_add(str_cols(spans[i].content.as_str()));
                    i = i + 1;
                }
                proof {
                    lemma_href_run_end(sv, i as int, u);
                    assert(href_run_end(sv, i as int, u) == i);
                }
                let ghost pre = link_views(links@);
                if col > start {
                    let url = match target {
                        Some(u) => u,
                        None => String::new(),
                    };
                    links.push(BufferLink { line: 0, start_col: start, end_col: col, url });
                    proof {
                        assert(link_views(links@) =~= pre.push((0int, start as int, col as int, u)));
                        assert(pre.push((0int, start as int, col as int, u)) + runs_from(sv, i as int, col as int)
                            =~= pre + (seq![(0int, start as int, col as int, u)] + runs_from(sv, i as int, col as int)));
                    }
                }
            },
        }
    }
    proof {
        assert(link_views(links@) + runs_from(sv, i as int, col as int) =~= link_views(links@));
    }
    links
}


/// Merge rich cells into runs, coalescing neighbours of equal style and
/// target, and report the link runs of the result.
pub fn coalesce_rich(cells: &[RichCell]) -> (r: (Vec<RichSpan>, Vec<BufferLink>))
    ensures
        rich_views(r.0@) == rich_coalesce(rich_cell_views(cells@)),
        link_views(r.1@) == runs_from(rich_views(r.0@), 0, 0),
{
    let ghost cv = rich_cell_views(cells@);
    let mut spans: Vec<RichSpan> = Vec::new();
    let mut buf = String::new();
    let mut run_style: Option<Style> = None;
    let mut run_href: Option<String> = None;
    let mut i: usize = 0;
    while i < cells.len()
        invariant
            i <= cells@.len(),
            cv == rich_cell_views(cells@),
            match run_style {
                Some(st) => rich_views(spans@).push((buf@, st, href_view(run_href))) == rich_coalesce(
                    cv.take(i as int),
                ),
                None => rich_views(spans@) == rich_coalesce(cv.take(i as int)) && spans@.len() == 0
                    && buf@.len() == 0,
            },
        decreases cells@.len() - i,
    {
        let ghost sv0 = rich_views(spans@);
        proof {
            assert(cv.take(i as int + 1).drop_last() =~= cv.take(i as int));
            assert(cv.take(i as int + 1).last() == cv[i as int]);
        }
        let g = &cells[i].0;
        let st = cells[i].1;
        let same = match run_style {
            Some(s) => s == st && same_href(&run_href, &cells[i].2),
            None => false,
        };
        if same {
            buf.append(g.as_str());
            proof {
                let r = rich_coalesce(cv.take(i as int));
                assert(sv0.push((buf@, st, href_view(run_href))) =~= r.update(
                    r.len() - 1,
                    (r.last().0 + g@, st, href_view(cells@[i as int].2)),
                ));
            }
        } else {
            if let Some(s) = run_style {
                let h = run_href;
                let done = RichSpan { content: buf, style: s, href: h };
                spans.push(done);
                buf = String::new();
            }
            run_style = Some(st);
            run_href = clone_href(&cells[i].2);
            buf.append(g.as_str());
            proof {
                assert(buf@ =~= g@);
                assert(rich_views(spans@) =~= rich_coalesce(cv.take(i as int)));
                assert(rich_views(spans@).push((buf@, st, href_view(run_href))) =~= rich_coalesce(
                    cv.take(i as int),
                ).push(cv[i as int]));
            }
        }
        i = i + 1;
    }
    if let Some(s) = run_style {
        let h = run_href;
        let done = RichSpan { content: buf, style: s, href: h };
        spans.push(done);
    }
    proof {
        assert(cv.take(cells@.len() as int) =~= cv);
    }
    let sl = spans.as_slice();
    proof {
        assert(sl@ == spans@);
    }
    let links = link_runs(sl, 0);
    (spans, links)
}


/// The grapheme cells of `spans`, in order, each with its run's style and
/// target.
fn cells_of(spans: &[RichSpan]) -> (cells: Vec<RichCell>)
    ensures
        rich_cell_views(cells@) == rich_cells(rich_views(spans@)),
{
    let ghost sv = rich_views(spans@);
    let mut cells: Vec<RichCell> = Vec::new();
    let mut si: usize = 0;
    while si < spans.len()
        invariant
            si <= spans@.len(),
            sv == rich_views(spans@),
            rich_cell_views(cells@) == rich_cells(sv.take(si as int)),
        decreases spans@.len() - si,
    {
        let span = &spans[si];
        let gs = graphemes(span.content.as_str());
        let ghost base = rich_cell_views(cells@);
        let ghost h = href_view(span.href);
        let mut gi: usize = 0;
        while gi < gs.len()
            invariant
                gi <= gs@.len(),
                views(gs@) == grapheme_clusters(span.content@),
                h == href_view(span.href),
                rich_cell_views(cells@) == base + grapheme_clusters(span.content@).take(gi as int).map_values(
                    |g: Seq<char>| (g, span.style, h),
                ),
            decreases gs@.len() - gi,
        {
            let ghost pre = rich_cell_views(cells@);
            cells.push((gs[gi].clone(), span.style, clone_href(&span.href)));
            proof {
                assert(rich_cell_views(cells@) =~= pre.push((gs@[gi as int]@, span.style, h)));
                assert(grapheme_clusters(span.content@).take(gi as int + 1).map_values(
                    |g: Seq<char>| (g, span.style, h),
                ) =~= grapheme_clusters(span.content@).take(gi as int).map_values(
                    |g: Seq<char>| (g, span.style, h),
                ).push((gs@[gi as int]@, span.style, h)));
            }
            gi = gi + 1;
        }
        proof {
            assert(grapheme_clusters(span.content@).take(gs@.len() as int) =~= grapheme_clusters(span.content@));
            assert(sv.take(si as int + 1).drop_last() =~= sv.take(si as int));
            assert(sv.take(si as int + 1).last() == span@);
        }
        si = si + 1;
    }
    proof {
        assert(sv.take(si as int) =~= sv);
    }
    cells
}

/// Word-wrap rich runs to `width`, keeping each run's style and link target
/// across the reflow. Returns each output row with its link runs (columns
/// from 0, line 0). Whitespace collapses to one space, styled as the first
/// whitespace cell it replaces; a word wider than `width` is broken across
/// rows; a `width` of 0 returns the runs unchanged as one row.
pub fn wrap_rich(spans: &[RichSpan], width: u16) -> (rows: Vec<(Vec<RichSpan>, Vec<BufferLink>)>)
    ensures
        rich_rows_view(rows@) == wrap_rich_spec(rich_views(spans@), width as int),
{
    let mut out: Vec<(Vec<RichSpan>, Vec<BufferLink>)> = Vec::new();
    if width == 0 {
        let mut copy: Vec<RichSpan> = Vec::new();
        let mut i: usize = 0;
        while i < spans.len()
            invariant
                i <= spans@.len(),
                rich_views(copy@) == rich_views(spans@).take(i as int),
            decreases spans@.len() - i,
        {
            let ghost pre = rich_views(copy@);
            let cl = spans[i].clone();
            proof {
                assert(cl@ == spans@[i as int]@);
            }
            copy.push(cl);
            proof {
                assert(rich_views(copy@) =~= pre.push(spans@[i as int]@));
                assert(rich_views(copy@) =~= rich_views(spans@).take(i as int + 1));
            }
            i = i + 1;
        }
        proof {
            assert(rich_views(spans@).take(i as int) =~= rich_views(spans@));
        }
        let links = link_runs(spans, 0);
        out.push((copy, links));
        proof {
            assert(rich_rows_view(out@) =~= wrap_rich_spec(rich_views(spans@), width as int));
        }
        return out;
    }
    let cells = cells_of(spans);
    let ghost all = rich_cell_views(cells@);
    let mut metrics: Vec<CellMetrics> = Vec::new();
    let mut k: usize = 0;
    while k < cells.len()
        invariant
            k <= cells@.len(),
            all == rich_cell_views(cells@),
            metrics@ == rich_metrics(all.take(k as int)),
        decreases cells@.len() - k,
    {
        metrics.push(CellMetrics::of(cells[k].0.as_str()));
        proof {
            assert(rich_metrics(all.take(k as int + 1)) =~= rich_metrics(all.take(k as int)).push(
                metrics_of(cells@[k as int].0@),
            ));
        }
        k = k + 1;
    }
    proof {
        assert(all.take(k as int) =~= all);
    }
    let rows = wrap_cells(metrics.as_slice(), width);
    proof {
        assert(row_views(Seq::<Vec<(usize, usize)>>::empty()) =~= Seq::<Seq<(usize, usize)>>::empty());
        assert(rows_chain(Seq::<Seq<(usize, usize)>>::empty(), metrics@.len() as int));
        assert(row_chain(Seq::<(usize, usize)>::empty(), metrics@.len() as int));
        lemma_wrap_chain(metrics@, width as int, 0, seq![], seq![], 0);
    }
    let ghost spec_rows = wrap_rich_spec(rich_views(spans@), width as int);
    let mut r: usize = 0;
    while r < rows.len()
        invariant
            r <= rows@.len(),
            width > 0,
            row_views(rows@) == wrap_spec(metrics@, width as int),
            rows_chain(row_views(rows@), cells@.len() as int),
            metrics@.len() == cells@.len(),
            all == rich_cell_views(cells@),
            metrics@ == rich_metrics(all),
            all == rich_cells(rich_views(spans@)),
            spec_rows == wrap_rich_spec(rich_views(spans@), width as int),
            rich_rows_view(out@) == spec_rows.take(r as int),
        decreases rows@.len() - r,
    {
        let row = &rows[r];
        proof {
            assert(row_views(rows@)[r as int] == row@);
            assert(row_chain(row@, cells@.len() as int));
        }
        let mut cur: Vec<RichCell> = Vec::new();
        let mut w: usize = 0;
        while w < row.len()
            invariant
                w <= row@.len(),
                row_chain(row@, cells@.len() as int),
                all == rich_cell_views(cells@),
                rich_cell_views(cur@) == rich_row(all, row@.take(w as int)),
            decreases row@.len() - w,
        {
            proof {
                assert(row@.take(w as int + 1).drop_last() =~= row@.take(w as int));
                assert(row@.take(w as int + 1).last() == row@[w as int]);
                assert(row@[w as int].0 < row@[w as int].1 <= cells@.len());
            }
            let (a, b) = row[w];
            if w > 0 {
                let p = row[w - 1].1;
                proof {
                    assert(row@[w - 1].1 <= row@[w as int].0);
                    assert(row@.take(w as int + 1)[w - 1] == row@[w - 1]);
                }
                let ghost pre = rich_cell_views(cur@);
                let sp = String::from_str(" ");
                proof {
                    reveal_strlit(" ");
                    assert(sp@ =~= seq![' ']);
                }
                cur.push((sp, cells[p].1, clone_href(&cells[p].2)));
                proof {
                    assert(rich_cell_views(cur@) =~= pre.push((seq![' '], all[p as int].1, all[p as int].2)));
                }
            }
            let ghost joined = rich_cell_views(cur@);
            let mut c = a;
            while c < b
                invariant
                    a <= c <= b,
                    b <= cells@.len(),
                    all == rich_cell_views(cells@),
                    rich_cell_views(cur@) == joined + all.subrange(a as int, c as int),
                decreases b - c,
            {
                let ghost pre = rich_cell_views(cur@);
                cur.push((cells[c].0.clone(), cells[c].1, clone_href(&cells[c].2)));
                proof {
                    assert(rich_cell_views(cur@) =~= pre.push(all[c as int]));
                    assert(all.subrange(a as int, c as int + 1) =~= all.subrange(a as int, c as int).push(
                        all[c as int],
                    ));
                }
                c = c + 1;
            }
            w = w + 1;
        }
        proof {
            assert(row@.take(row@.len() as int) =~= row@);
        }
        let cs = cur.as_slice();
        proof {
            assert(cs@ == cur@);
        }
        let produced = coalesce_rich(cs);
        let ghost pre_out = rich_rows_view(out@);
        out.push(produced);
        proof {
            assert(rich_rows_view(out@) =~= pre_out.push(spec_rows[r as int]));
            assert(spec_rows.take(r as int + 1) =~= spec_rows.take(r as int).push(spec_rows[r as int]));
        }
        r = r + 1;
    }
    proof {
        assert(spec_rows.take(r as int) =~= spec_rows);
    }
    out
}


/// A parsed block whose presentation a host may supply: a fenced code block
/// (its info string's first word and body) or a raw block-level HTML run.
#[derive(Clone, Copy, Debug)]
pub enum MarkdownBlock<'a> {
    Fenced { language: &'a str, source: &'a str },
    Html { source: &'a str },
}

impl<'a> MarkdownBlock<'a> {
    /// The verbatim source the block carries.
    pub fn source(self) -> (s: &'a str)
        ensures
            s == match self {
                MarkdownBlock::Fenced { source, .. } => source,
                MarkdownBlock::Html { source } => source,
            },
    {
        match self {
            MarkdownBlock::Fenced { source, .. } => source,
            MarkdownBlock::Html { source } => source,
        }
    }
}

/// What every block renderer is told: the columns left after nesting
/// indentation, the theme and the stylesheet.
#[derive(Clone, Copy)]
pub struct MarkdownBlockContext<'a> {
    pub width: u16,
    pub theme: &'a Theme,
    pub sheet: &'a StyleSheet,
}

impl<'a> MarkdownBlockContext<'a> {
    pub fn new(width: u16, theme: &'a Theme, sheet: &'a StyleSheet) -> (c: MarkdownBlockContext<'a>)
        ensures
            c.width == width,
            c.theme == theme,
            c.sheet == sheet,
    {
        MarkdownBlockContext { width, theme, sheet }
    }
}

/// Lays out host-defined presentations of structured blocks (diagrams,
/// math, raw HTML, ...). Returns `None` for a block it does not handle.
pub trait MarkdownBlockRenderer {
    fn render(&self, block: MarkdownBlock<'_>, context: MarkdownBlockContext<'_>) -> Option<Vec<Line>>;
}

/// An ordered chain of block renderers: the first to answer owns the block.
pub struct Renderers<'a> {
    pub blocks: Vec<&'a dyn MarkdownBlockRenderer>,
}

impl<'a> Renderers<'a> {
    /// No renderers.
    pub fn new() -> (r: Renderers<'a>)
        ensures
            r.blocks@.len() == 0,
    {
        Renderers { blocks: Vec::new() }
    }

    /// Append `renderer` to the chain.
    pub fn renderer(self, renderer: &'a dyn MarkdownBlockRenderer) -> (r: Renderers<'a>)
        ensures
            r.blocks@ == self.blocks@.push(renderer),
    {
        let mut blocks = self.blocks;
        blocks.push(renderer);
        Renderers { blocks }
    }

    /// The first answer of the chain for `block`.
    pub fn render_block(&self, block: MarkdownBlock<'_>, context: MarkdownBlockContext<'_>) -> (r: Option<Vec<Line>>)
        ensures
            self.blocks@.len() == 0 ==> r is None,
    {
        let mut i: usize = 0;
        while i < self.blocks.len()
            invariant
                i <= self.blocks@.len(),
            decreases self.blocks@.len() - i,
        {
            let answer = self.blocks[i].render(block, context);
            if answer.is_some() {
                return answer;
            }
            i = i + 1;
        }
        None
    }
}

/// `spans` as a line after `indent` blank columns (link targets dropped).
pub open spec fn prefix_line_spec(indent: int, spans: Seq<RichView>) -> LineView {
    let body = spans.map_values(|s: RichView| (s.0, s.1));
    if indent == 0 {
        plain_line(body)
    } else {
        plain_line(seq![(repeat(' ', indent), Style::spec_empty())] + body)
    }
}

/// A rendered line after `indent` blank columns; untouched at indent 0.
pub open spec fn prefix_rendered_spec(indent: int, l: LineView) -> LineView {
    if indent == 0 {
        l
    } else {
        plain_line(seq![(repeat(' ', indent), Style::spec_empty())] + l.0)
    }
}

/// `n` background columns, in runs of at most 128.
pub open spec fn padding_runs(n: int, bg: Style) -> Seq<(Seq<char>, Style)>
    decreases n,
{
    if n <= 0 {
        seq![]
    } else {
        let w = if n > 128 { 128 } else { n };
        seq![(repeat(' ', w), bg)] + padding_runs(n - w, bg)
    }
}

/// A fallback code row after `indent` blank columns, padded with background
/// to `available` columns.
pub open spec fn fill_code_spec(indent: int, available: int, l: LineView, line_width: int, bg: Style) -> LineView {
    let padding = if available > line_width { available - line_width } else { 0 };
    let pre = if indent > 0 { seq![(repeat(' ', indent), Style::spec_empty())] } else { seq![] };
    plain_line(pre + l.0 + padding_runs(padding, bg))
}

/// Columns left for a block after its indent, at least one.
pub open spec fn avail(width: int, indent: int) -> int {
    if width - indent > 1 { width - indent } else { 1 }
}

/// The lines and link runs of a flattened document so far.
pub type Flat = (Seq<LineView>, Seq<LinkView>);

/// The first `k` of `rows` appended as indented lines, their link runs moved
/// to the line they land on and past the indent.
pub open spec fn push_rows(acc: Flat, rows: WrappedRows, indent: int, k: int) -> Flat
    decreases k,
{
    if k <= 0 {
        acc
    } else {
        let a = push_rows(acc, rows, indent, k - 1);
        let row = rows[k - 1];
        let idx = (a.0.len() as u16) as int;
        (
            a.0.push(prefix_line_spec(indent, row.0)),
            a.1 + row.1.map_values(|l: LinkView| (idx, sadd(l.1, indent), sadd(l.2, indent), l.3)),
        )
    }
}

/// One block flattened onto what came before, given what the block
/// renderers answered for it. A blank only separates: it adds a spacer line
/// after a line that is not one already, and none at the top, unless
/// `after` says that lines come before the ones flattened here.
pub open spec fn flatten_item(acc: Flat, item: MdItemView, width: int, theme: Theme, rendered: Option<Seq<LineView>>, after: bool) -> Flat {
    match item {
        MdItemView::Blank => if (if acc.0.len() > 0 { acc.0.last().0.len() != 0 } else { after }) {
            (acc.0.push(plain_line(seq![])), acc.1)
        } else {
            acc
        },
        MdItemView::Prose(spans, indent) => {
            let rows = wrap_rich_spec(spans, avail(width, indent));
            push_rows(acc, rows, indent, rows.len() as int)
        },
        MdItemView::CodeBlock(_, _, fallback, indent) => match rendered {
            Some(ls) => (acc.0 + ls.map_values(|l: LineView| prefix_rendered_spec(indent, l)), acc.1),
            None => {
                let bg = Style { bg: Some(theme.code.background), ..Style::spec_empty() };
                (
                    acc.0 + fallback.map_values(
                        |r: (LineView, int)| fill_code_spec(indent, avail(width, indent), r.0, r.1, bg),
                    ),
                    acc.1,
                )
            },
        },
        MdItemView::Table(t, indent) => {
            let rows = render_table_spec(t, avail(width, indent), theme.dim);
            push_rows(acc, rows, indent, rows.len() as int)
        },
        MdItemView::Html(_, indent) => match rendered {
            Some(ls) => (acc.0 + ls.map_values(|l: LineView| prefix_rendered_spec(indent, l)), acc.1),
            None => acc,
        },
    }
}

/// The first `k` blocks flattened, block `i` with renderer answer
/// `rendered[i]`; `after` when lines come before them.
pub open spec fn flatten_spec(items: Seq<MdItemView>, width: int, theme: Theme, rendered: Seq<Option<Seq<LineView>>>, k: int, after: bool) -> Flat
    decreases k,
{
    if k <= 0 {
        (seq![], seq![])
    } else {
        flatten_item(flatten_spec(items, width, theme, rendered, k - 1, after), items[k - 1], width, theme, rendered[k - 1], after)
    }
}

/// Link runs moved down `base` lines (saturating at the last row).
pub open spec fn shift_links(ls: Seq<LinkView>, base: int) -> Seq<LinkView> {
    ls.map_values(|l: LinkView| (sadd(l.0, base), l.1, l.2, l.3))
}

/// `b` flattened after `a`: its lines appended, its link runs moved below
/// `a`'s lines.
pub open spec fn joined(a: Flat, b: Flat) -> Flat {
    (a.0 + b.0, a.1 + shift_links(b.1, a.0.len() as int))
}

/// Whether `lines` ends on a spacer line (one with no spans).
pub open spec fn ends_on_spacer(lines: Seq<LineView>) -> bool {
    lines.len() > 0 && lines.last().0.len() == 0
}

proof fn lemma_push_rows_joined(a: Flat, x: Flat, rows: WrappedRows, indent: int, k: int)
    requires
        0 <= k <= rows.len(),
        a.0.len() + x.0.len() + k <= 65535,
    ensures
        push_rows(joined(a, x), rows, indent, k) == joined(a, push_rows(x, rows, indent, k)),
        push_rows(x, rows, indent, k).0.len() == x.0.len() + k,
    decreases k,
{
    if k > 0 {
        lemma_push_rows_joined(a, x, rows, indent, k - 1);
        let p = push_rows(x, rows, indent, k - 1);
        let row = rows[k - 1];
        let one = row.1.map_values(|l: LinkView| (((a.0.len() + p.0.len()) as u16) as int, sadd(l.1, indent), sadd(l.2, indent), l.3));
        let two = row.1.map_values(|l: LinkView| ((p.0.len() as u16) as int, sadd(l.1, indent), sadd(l.2, indent), l.3));
        assert(shift_links(two, a.0.len() as int) =~= one);
        assert(shift_links(p.1 + two, a.0.len() as int) =~= shift_links(p.1, a.0.len() as int) + one);
        assert((a.0 + p.0).push(prefix_line_spec(indent, row.0)) =~= a.0 + p.0.push(prefix_line_spec(indent, row.0)));
    }
}

proof fn lemma_flatten_len_grows(items: Seq<MdItemView>, width: int, theme: Theme, rendered: Seq<Option<Seq<LineView>>>, i: int, j: int, after: bool)
    requires
        0 <= i <= j,
    ensures
        flatten_spec(items, width, theme, rendered, i, after).0.len() <= flatten_spec(items, width, theme, rendered, j, after).0.len(),
    decreases j - i,
{
    if i < j {
        lemma_flatten_len_grows(items, width, theme, rendered, i, j - 1, after);
        let acc = flatten_spec(items, width, theme, rendered, j - 1, after);
        match items[j - 1] {
            MdItemView::Prose(spans, indent) => {
                let rows = wrap_rich_spec(spans, avail(width, indent));
                lemma_push_rows_len(acc, rows, indent, rows.len() as int);
            },
            MdItemView::Table(t, indent) => {
                let rows = render_table_spec(t, avail(width, indent), theme.dim);
                lemma_push_rows_len(acc, rows, indent, rows.len() as int);
            },
            _ => {},
        }
    }
}

proof fn lemma_push_rows_len(acc: Flat, rows: WrappedRows, indent: int, k: int)
    requires
        0 <= k,
    ensures
        push_rows(acc, rows, indent, k).0.len() == acc.0.len() + k,
    decreases k,
{
    if k > 0 {
        lemma_push_rows_len(acc, rows, indent, k - 1);
    }
}

proof fn lemma_flatten_joined(
    items: Seq<MdItemView>,
    width: int,
    theme: Theme,
    rendered: Seq<Option<Seq<LineView>>>,
    k: int,
    j: int,
    after: bool,
)
    requires
        0 <= k,
        0 <= j,
        k + j <= items.len(),
        rendered.len() == items.len(),
        !ends_on_spacer(flatten_spec(items, width, theme, rendered, k, after).0),
        flatten_spec(items, width, theme, rendered, k + j, after).0.len() <= 65535,
    ensures
        flatten_spec(items, width, theme, rendered, k + j, after) == joined(
            flatten_spec(items, width, theme, rendered, k, after),
            flatten_spec(
                items.skip(k),
                width,
                theme,
                rendered.skip(k),
                j,
                flatten_spec(items, width, theme, rendered, k, after).0.len() > 0 || after,
            ),
        ),
    decreases j,
{
    let a = flatten_spec(items, width, theme, rendered, k, after);
    let after2 = a.0.len() > 0 || after;
    if j == 0 {
        assert(joined(a, (seq![], seq![])).0 =~= a.0);
        assert(joined(a, (seq![], seq![])).1 =~= a.1);
    } else {
        lemma_flatten_len_grows(items, width, theme, rendered, k + j - 1, k + j, after);
        lemma_flatten_joined(items, width, theme, rendered, k, j - 1, after);
        let b = flatten_spec(items.skip(k), width, theme, rendered.skip(k), j - 1, after2);
        let item = items[k + j - 1];
        assert(items.skip(k)[j - 1] == item);
        assert(rendered.skip(k)[j - 1] == rendered[k + j - 1]);
        let one = joined(a, b);
        match item {
            MdItemView::Blank => {
                if b.0.len() > 0 {
                    assert((a.0 + b.0).last() == b.0.last());
                }
                assert((a.0 + b.0).push(plain_line(seq![])) =~= a.0 + b.0.push(plain_line(seq![])));
            },
            MdItemView::Prose(spans, indent) => {
                let rows = wrap_rich_spec(spans, avail(width, indent));
                lemma_push_rows_len(one, rows, indent, rows.len() as int);
                lemma_push_rows_joined(a, b, rows, indent, rows.len() as int);
            },
            MdItemView::Table(t, indent) => {
                let rows = render_table_spec(t, avail(width, indent), theme.dim);
                lemma_push_rows_len(one, rows, indent, rows.len() as int);
                lemma_push_rows_joined(a, b, rows, indent, rows.len() as int);
            },
            MdItemView::CodeBlock(_, _, fallback, indent) => {
                match rendered[k + j - 1] {
                    Some(ls) => {
                        let m = ls.map_values(|l: LineView| prefix_rendered_spec(indent, l));
                        assert((a.0 + b.0) + m =~= a.0 + (b.0 + m));
                    },
                    None => {
                        let bg = Style { bg: Some(theme.code.background), ..Style::spec_empty() };
                        let m = fallback.map_values(
                            |r: (LineView, int)| fill_code_spec(indent, avail(width, indent), r.0, r.1, bg),
                        );
                        assert((a.0 + b.0) + m =~= a.0 + (b.0 + m));
                    },
                }
            },
            MdItemView::Html(_, indent) => {
                match rendered[k + j - 1] {
                    Some(ls) => {
                        let m = ls.map_values(|l: LineView| prefix_rendered_spec(indent, l));
                        assert((a.0 + b.0) + m =~= a.0 + (b.0 + m));
                    },
                    None => {},
                }
            },
        }
    }
}

/// Flattening blocks in two batches, the second from scratch (told only
/// whether lines come before it) with its link runs moved below the first
/// batch's lines, gives what flattening them all at once gives: the
/// property that lets a streamed render flatten each settled block only
/// once. It holds when the first batch does not end on a spacer line (a
/// blank opening the second batch would otherwise be kept twice) and the
/// lines fit in `u16` rows.
pub proof fn lemma_flatten_batches(
    items: Seq<MdItemView>,
    width: int,
    theme: Theme,
    rendered: Seq<Option<Seq<LineView>>>,
    k: int,
)
    requires
        0 <= k <= items.len(),
        rendered.len() == items.len(),
        !ends_on_spacer(flatten_spec(items, width, theme, rendered, k, false).0),
        flatten_spec(items, width, theme, rendered, items.len() as int, false).0.len() <= 65535,
    ensures
        flatten_spec(items, width, theme, rendered, items.len() as int, false) == joined(
            flatten_spec(items, width, theme, rendered, k, false),
            flatten_spec(
                items.skip(k),
                width,
                theme,
                rendered.skip(k),
                items.len() - k,
                flatten_spec(items, width, theme, rendered, k, false).0.len() > 0,
            ),
        ),
{
    lemma_flatten_joined(items, width, theme, rendered, k, items.len() - k, false);
}

/// Whether block renderers are consulted for this block.
pub open spec fn renderable(item: MdItemView) -> bool {
    item is CodeBlock || item is Html
}

pub open spec fn lines_view(v: Seq<Line>) -> Seq<LineView> {
    v.map_values(|l: Line| line_spans_view(l))
}

fn spaces(n: usize) -> (s: String)
    ensures
        s@ == repeat(' ', n as int),
{
    let mut s = String::new();
    let mut i: usize = 0;
    while i < n
        invariant
            i <= n,
            s@ == repeat(' ', i as int),
        decreases n - i,
    {
        crate::graphemes::push_char(&mut s, ' ');
        i = i + 1;
    }
    s
}

/// `spans` as a line after `indent` blank columns.
pub fn prefix_line(indent: u16, spans: &[RichSpan]) -> (l: Line)
    ensures
        line_spans_view(l) == prefix_line_spec(indent as int, rich_views(spans@)),
{
    let mut out: Vec<Span> = Vec::new();
    if indent > 0 {
        out.push(Span::owned(spaces(indent as usize), Style::new()));
    }
    let ghost base = out@.map_values(|s: Span| (s.content@, s.style));
    let mut i: usize = 0;
    while i < spans.len()
        invariant
            i <= spans@.len(),
            out@.map_values(|s: Span| (s.content@, s.style)) == base + rich_views(spans@).take(i as int).map_values(
                |s: RichView| (s.0, s.1),
            ),
        decreases spans@.len() - i,
    {
        let ghost pre = out@.map_values(|s: Span| (s.content@, s.style));
        out.push(Span::owned(spans[i].content.clone(), spans[i].style));
        proof {
            assert(out@.map_values(|s: Span| (s.content@, s.style)) =~= pre.push((spans@[i as int].content@, spans@[i as int].style)));
            assert(rich_views(spans@).take(i as int + 1).map_values(|s: RichView| (s.0, s.1)) =~= rich_views(spans@).take(
                i as int,
            ).map_values(|s: RichView| (s.0, s.1)).push((spans@[i as int].content@, spans@[i as int].style)));
        }
        i = i + 1;
    }
    proof {
        assert(rich_views(spans@).take(i as int) =~= rich_views(spans@));
        if indent == 0 {
            assert(base =~= Seq::<(Seq<char>, Style)>::empty());
        }
    }
    let l = Line::from_spans(out);
    proof {
        assert(line_spans_view(l) =~= prefix_line_spec(indent as int, rich_views(spans@)));
    }
    l
}

/// A rendered line after `indent` blank columns.
pub fn prefix_rendered_line(indent: u16, line: Line) -> (l: Line)
    ensures
        line_spans_view(l) == prefix_rendered_spec(indent as int, line_spans_view(line)),
{
    if indent == 0 {
        return line;
    }
    let mut out: Vec<Span> = Vec::new();
    out.push(Span::owned(spaces(indent as usize), Style::new()));
    let mut rest = line.spans;
    let ghost r = rest@;
    out.append(&mut rest);
    let l = Line::from_spans(out);
    proof {
        assert(line_spans_view(l) =~= prefix_rendered_spec(indent as int, line_spans_view(line)));
    }
    l
}

/// A fallback code row after `indent` blank columns, padded with
/// `background` out to `available` columns.
pub fn fill_code_line(indent: u16, available: u16, line: &Line, line_width: u16, background: Style) -> (l: Line)
    ensures
        line_spans_view(l) == fill_code_spec(indent as int, available as int, line_spans_view(*line), line_width as int, background),
{
    let padding = available.saturating_sub(line_width) as usize;
    let mut out: Vec<Span> = Vec::new();
    if indent > 0 {
        out.push(Span::owned(spaces(indent as usize), Style::new()));
    }
    let ghost pre = out@.map_values(|s: Span| (s.content@, s.style));
    let mut i: usize = 0;
    while i < line.spans.len()
        invariant
            i <= line.spans@.len(),
            out@.map_values(|s: Span| (s.content@, s.style)) == pre + line.spans@.take(i as int).map_values(
                |s: Span| (s.content@, s.style),
            ),
        decreases line.spans@.len() - i,
    {
        let ghost p = out@.map_values(|s: Span| (s.content@, s.style));
        out.push(Span::owned(line.spans[i].content.clone(), line.spans[i].style));
        proof {
            assert(out@.map_values(|s: Span| (s.content@, s.style)) =~= p.push(
                (line.spans@[i as int].content@, line.spans@[i as int].style),
            ));
            assert(line.spans@.take(i as int + 1).map_values(|s: Span| (s.content@, s.style)) =~= line.spans@.take(
                i as int,
            ).map_values(|s: Span| (s.content@, s.style)).push(
                (line.spans@[i as int].content@, line.spans@[i as int].style),
            ));
        }
        i = i + 1;
    }
    proof {
        assert(line.spans@.take(i as int) =~= line.spans@);
    }
    let ghost mid = out@.map_values(|s: Span| (s.content@, s.style));
    let mut remaining = padding;
    while remaining > 0
        invariant
            out@.map_values(|s: Span| (s.content@, s.style)) + padding_runs(remaining as int, background) == mid
                + padding_runs(padding as int, background),
        decreases remaining,
    {
        let w = if remaining > 128 { 128 } else { remaining };
        let ghost p = out@.map_values(|s: Span| (s.content@, s.style));
        out.push(Span::owned(spaces(w), background));
        proof {
            assert(out@.map_values(|s: Span| (s.content@, s.style)) =~= p.push((repeat(' ', w as int), background)));
            assert(padding_runs(remaining as int, background) =~= seq![(repeat(' ', w as int), background)]
                + padding_runs(remaining - w, background));
            assert(out@.map_values(|s: Span| (s.content@, s.style)) + padding_runs(remaining - w, background) =~= p
                + padding_runs(remaining as int, background));
        }
        remaining = remaining - w;
    }
    proof {
        assert(out@.map_values(|s: Span| (s.content@, s.style)) =~= out@.map_values(|s: Span| (s.content@, s.style))
            + padding_runs(0, background));
    }
    let l = Line::from_spans(out);
    proof {
        assert(line_spans_view(l) =~= fill_code_spec(indent as int, available as int, line_spans_view(*line), line_width as int, background));
    }
    l
}


/// Append wrapped rows as indented lines (see [`push_rows`]).
fn push_wrapped(
    out: &mut Vec<Line>,
    links: &mut Vec<BufferLink>,
    rows: &Vec<(Vec<RichSpan>, Vec<BufferLink>)>,
    indent: u16,
)
    ensures
        (lines_view(final(out)@), link_views(final(links)@)) == push_rows(
            (lines_view(old(out)@), link_views(old(links)@)),
            rich_rows_view(rows@),
            indent as int,
            rows@.len() as int,
        ),
{
    let ghost acc0 = (lines_view(out@), link_views(links@));
    let ghost rv = rich_rows_view(rows@);
    let mut r: usize = 0;
    while r < rows.len()
        invariant
            r <= rows@.len(),
            rv == rich_rows_view(rows@),
            (lines_view(out@), link_views(links@)) == push_rows(acc0, rv, indent as int, r as int),
        decreases rows@.len() - r,
    {
        let n = out.len();
        let line_idx = n as u16;
        let row = &rows[r];
        let rs = row.0.as_slice();
        proof {
            assert(rs@ == row.0@);
        }
        let ghost l0 = link_views(links@);
        let mut j: usize = 0;
        while j < row.1.len()
            invariant
                j <= row.1@.len(),
                link_views(links@) == l0 + link_views(row.1@).take(j as int).map_values(
                    |l: LinkView| (line_idx as int, sadd(l.1, indent as int), sadd(l.2, indent as int), l.3),
                ),
            decreases row.1@.len() - j,
        {
            let bl = &row.1[j];
            let moved = BufferLink {
                line: line_idx,
                start_col: bl.start_col.saturating_add(indent),
                end_col: bl.end_col.saturating_add(indent),
                url: bl.url.clone(),
            };
            let ghost p = link_views(links@);
            links.push(moved);
            proof {
                assert(link_views(links@) =~= p.push(
                    (line_idx as int, sadd(bl.start_col as int, indent as int), sadd(bl.end_col as int, indent as int), bl.url@),
                ));
                assert(link_views(row.1@).take(j as int + 1) =~= link_views(row.1@).take(j as int).push(bl@));
            }
            j = j + 1;
        }
        proof {
            assert(link_views(row.1@).take(j as int) =~= link_views(row.1@));
            assert(rv[r as int] == (rich_views(row.0@), link_views(row.1@)));
        }
        let ghost o0 = lines_view(out@);
        let line = prefix_line(indent, rs);
        out.push(line);
        proof {
            assert(lines_view(out@) =~= o0.push(prefix_line_spec(indent as int, rich_views(row.0@))));
        }
        r = r + 1;
    }
}

fn push_rendered(out: &mut Vec<Line>, rendered: Vec<Line>, indent: u16)
    ensures
        lines_view(final(out)@) == lines_view(old(out)@) + lines_view(rendered@).map_values(
            |l: LineView| prefix_rendered_spec(indent as int, l),
        ),
{
    let ghost o0 = lines_view(out@);
    let ghost rv = lines_view(rendered@);
    let mut rendered = rendered;
    let mut taken: Vec<Line> = Vec::new();
    // Reverse once so lines can be taken from the back in order.
    let n = rendered.len();
    let mut i: usize = 0;
    while i < n
        invariant
            i <= n,
            n == rv.len(),
            rendered@.len() == n - i,
            forall|k: int| 0 <= k < rendered@.len() ==> line_spans_view(#[trigger] rendered@[k]) == rv[k],
            taken@.len() == i,
            forall|k: int| 0 <= k < i ==> line_spans_view(#[trigger] taken@[k]) == rv[n - 1 - k],
        decreases n - i,
    {
        let l = rendered.pop().unwrap();
        taken.push(l);
        i = i + 1;
    }
    let mut k: usize = 0;
    while k < n
        invariant
            k <= n,
            n == rv.len(),
            taken@.len() == n - k,
            forall|q: int| 0 <= q < taken@.len() ==> line_spans_view(#[trigger] taken@[q]) == rv[n - 1 - q],
            lines_view(out@) == o0 + rv.take(k as int).map_values(|l: LineView| prefix_rendered_spec(indent as int, l)),
        decreases n - k,
    {
        let l = taken.pop().unwrap();
        let ghost p = lines_view(out@);
        let pl = prefix_rendered_line(indent, l);
        out.push(pl);
        proof {
            assert(lines_view(out@) =~= p.push(prefix_rendered_spec(indent as int, rv[k as int])));
            assert(rv.take(k as int + 1).map_values(|l: LineView| prefix_rendered_spec(indent as int, l)) =~= rv.take(
                k as int,
            ).map_values(|l: LineView| prefix_rendered_spec(indent as int, l)).push(prefix_rendered_spec(indent as int, rv[k as int])));
        }
        k = k + 1;
    }
    proof {
        assert(rv.take(n as int) =~= rv);
    }
}


pub open spec fn opt_lines_view(r: Option<Vec<Line>>) -> Option<Seq<LineView>> {
    match r {
        Some(v) => Some(lines_view(v@)),
        None => None,
    }
}

pub(crate) fn is_spacer(line: &Line) -> (b: bool)
    ensures
        b == (line_spans_view(*line).0.len() == 0),
{
    line.spans.len() == 0
}

fn avail_cols(width: u16, indent: u16) -> (a: u16)
    ensures
        a == avail(width as int, indent as int),
{
    let a = width.saturating_sub(indent);
    if a > 1 { a } else { 1 }
}

/// Flatten one block onto the lines so far; returns what the renderers
/// answered for it.
fn flatten_one(
    out: &mut Vec<Line>,
    links: &mut Vec<BufferLink>,
    item: &MdItem,
    width: u16,
    theme: &Theme,
    sheet: &StyleSheet,
    renderers: &Renderers,
    after: bool,
) -> (rendered: Ghost<Option<Seq<LineView>>>)
    ensures
        (lines_view(final(out)@), link_views(final(links)@)) == flatten_item(
            (lines_view(old(out)@), link_views(old(links)@)),
            item@,
            width as int,
            *theme,
            rendered@,
            after,
        ),
        rendered@ is Some ==> renderable(item@),
        renderers.blocks@.len() == 0 ==> rendered@ is None,
{
    match item {
        MdItem::Blank => {
            let separates = if out.len() > 0 {
                !is_spacer(&out[out.len() - 1])
            } else {
                after
            };
            if separates {
                let ghost o0 = lines_view(out@);
                let l = Line::new();
                proof {
                    assert(l.spans@.map_values(|s: Span| (s.content@, s.style)) =~= Seq::<(Seq<char>, Style)>::empty());
                    assert(line_spans_view(l) == plain_line(seq![]));
                }
                out.push(l);
                proof {
                    assert(lines_view(out@) =~= o0.push(plain_line(seq![])));
                }
            }
            Ghost(None)
        },
        MdItem::Prose { spans, indent } => {
            let a = avail_cols(width, *indent);
            let sl = spans.as_slice();
            proof {
                assert(sl@ == spans@);
            }
            let rows = wrap_rich(sl, a);
            push_wrapped(out, links, &rows, *indent);
            Ghost(None)
        },
        MdItem::CodeBlock { language, source, fallback, indent } => {
            let a = avail_cols(width, *indent);
            let ctx = MarkdownBlockContext::new(a, theme, sheet);
            let answer = renderers.render_block(
                MarkdownBlock::Fenced { language: language.as_str(), source: source.as_str() },
                ctx,
            );
            let ghost r = opt_lines_view(answer);
            match answer {
                Some(ls) => {
                    push_rendered(out, ls, *indent);
                },
                None => {
                    let background = Style::new().bg(theme.code.background);
                    let ghost o0 = lines_view(out@);
                    let ghost fv = code_rows_view(fallback@);
                    let mut k: usize = 0;
                    while k < fallback.len()
                        invariant
                            k <= fallback@.len(),
                            fv == code_rows_view(fallback@),
                            lines_view(out@) == o0 + fv.take(k as int).map_values(
                                |r: (LineView, int)| fill_code_spec(*indent as int, a as int, r.0, r.1, background),
                            ),
                        decreases fallback@.len() - k,
                    {
                        let row = &fallback[k];
                        let ghost p = lines_view(out@);
                        let l = fill_code_line(*indent, a, &row.line, row.width, background);
                        out.push(l);
                        proof {
                            assert(lines_view(out@) =~= p.push(fill_code_spec(*indent as int, a as int, fv[k as int].0, fv[k as int].1, background)));
                            assert(fv.take(k as int + 1).map_values(
                                |r: (LineView, int)| fill_code_spec(*indent as int, a as int, r.0, r.1, background),
                            ) =~= fv.take(k as int).map_values(
                                |r: (LineView, int)| fill_code_spec(*indent as int, a as int, r.0, r.1, background),
                            ).push(fill_code_spec(*indent as int, a as int, fv[k as int].0, fv[k as int].1, background)));
                        }
                        k = k + 1;
                    }
                    proof {
                        assert(fv.take(k as int) =~= fv);
                    }
                },
            }
            Ghost(r)
        },
        MdItem::Table { table, indent } => {
            let a = avail_cols(width, *indent);
            let rows = render_table_linked(table, a, theme);
            push_wrapped(out, links, &rows, *indent);
            Ghost(None)
        },
        MdItem::Html { source, indent } => {
            let a = avail_cols(width, *indent);
            let ctx = MarkdownBlockContext::new(a, theme, sheet);
            let answer = renderers.render_block(MarkdownBlock::Html { source: source.as_str() }, ctx);
            let ghost r = opt_lines_view(answer);
            match answer {
                Some(ls) => {
                    push_rendered(out, ls, *indent);
                },
                None => {},
            }
            Ghost(r)
        },
    }
}

proof fn lemma_flatten_prefix(
    items: Seq<MdItemView>,
    width: int,
    theme: Theme,
    r1: Seq<Option<Seq<LineView>>>,
    r2: Seq<Option<Seq<LineView>>>,
    k: int,
    after: bool,
)
    requires
        forall|j: int| 0 <= j < k ==> r1[j] == r2[j],
    ensures
        flatten_spec(items, width, theme, r1, k, after) == flatten_spec(items, width, theme, r2, k, after),
    decreases k,
{
    if k > 0 {
        lemma_flatten_prefix(items, width, theme, r1, r2, k - 1, after);
    }
}

/// Flatten parsed blocks into width-fitted lines, with a link run for every
/// hyperlink that survived wrapping. Block renderers are asked for each code
/// block and raw HTML block; a code block nobody renders keeps its themed
/// fallback rows, an HTML block nobody renders is dropped, and a blank never
/// doubles up or follows a dropped block's gap.
pub fn flatten_linked(
    items: &[MdItem],
    width: u16,
    theme: &Theme,
    sheet: &StyleSheet,
    renderers: &Renderers,
) -> (out: (Vec<Line>, Vec<BufferLink>))
    ensures
        exists|rendered: Seq<Option<Seq<LineView>>>|
            {
                &&& rendered.len() == items@.len()
                &&& forall|i: int| 0 <= i < rendered.len() && rendered[i] is Some ==> renderable(item_views(items@)[i])
                &&& (lines_view(out.0@), link_views(out.1@)) == flatten_spec(
                    item_views(items@),
                    width as int,
                    *theme,
                    rendered,
                    items@.len() as int,
                    false,
                )
            },
        renderers.blocks@.len() == 0 ==> (lines_view(out.0@), link_views(out.1@)) == flatten_spec(
            item_views(items@),
            width as int,
            *theme,
            Seq::new(items@.len(), |i: int| None),
            items@.len() as int,
            false,
        ),
{
    flatten_linked_after(items, width, theme, sheet, renderers, false)
}

/// [`flatten_linked`] for blocks that continue lines flattened before them
/// (`after`): a blank opening them then still separates.
pub fn flatten_linked_after(
    items: &[MdItem],
    width: u16,
    theme: &Theme,
    sheet: &StyleSheet,
    renderers: &Renderers,
    after: bool,
) -> (out: (Vec<Line>, Vec<BufferLink>))
    ensures
        exists|rendered: Seq<Option<Seq<LineView>>>|
            {
                &&& rendered.len() == items@.len()
                &&& forall|i: int| 0 <= i < rendered.len() && rendered[i] is Some ==> renderable(item_views(items@)[i])
                &&& (lines_view(out.0@), link_views(out.1@)) == flatten_spec(
                    item_views(items@),
                    width as int,
                    *theme,
                    rendered,
                    items@.len() as int,
                    after,
                )
            },
        renderers.blocks@.len() == 0 ==> (lines_view(out.0@), link_views(out.1@)) == flatten_spec(
            item_views(items@),
            width as int,
            *theme,
            Seq::new(items@.len(), |i: int| None),
            items@.len() as int,
            after,
        ),
{
    let ghost iv = item_views(items@);
    let mut out: Vec<Line> = Vec::new();
    let mut links: Vec<BufferLink> = Vec::new();
    let ghost mut rendered: Seq<Option<Seq<LineView>>> = seq![];
    proof {
        assert(lines_view(out@) =~= Seq::<LineView>::empty());
        assert(link_views(links@) =~= Seq::<LinkView>::empty());
    }
    let mut i: usize = 0;
    while i < items.len()
        invariant
            i <= items@.len(),
            iv == item_views(items@),
            rendered.len() == i,
            forall|j: int| 0 <= j < i && rendered[j] is Some ==> renderable(iv[j]),
            renderers.blocks@.len() == 0 ==> forall|j: int| 0 <= j < i ==> rendered[j] is None,
            (lines_view(out@), link_views(links@)) == flatten_spec(iv, width as int, *theme, rendered, i as int, after),
        decreases items@.len() - i,
    {
        let r = flatten_one(&mut out, &mut links, &items[i], width, theme, sheet, renderers, after);
        proof {
            let r2 = rendered.push(r@);
            lemma_flatten_prefix(iv, width as int, *theme, rendered, r2, i as int, after);
            assert(iv[i as int] == items@[i as int]@);
            rendered = r2;
        }
        i = i + 1;
    }
    proof {
        if renderers.blocks@.len() == 0 {
            let nones = Seq::new(items@.len(), |i: int| None::<Seq<LineView>>);
            lemma_flatten_prefix(iv, width as int, *theme, rendered, nones, items@.len() as int, after);
        }
    }
    (out, links)
}

} // verus!
