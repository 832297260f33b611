//! GFM table layout: per-column fitting, box-drawing borders, and the plain
//! fallback for widths too narrow to box.

use vstd::prelude::*;
use crate::chars::sat_usize;
use crate::style::{Color, Style, Theme};
use crate::graphemes::push_char;
use crate::width::str_cols;
use crate::components::text::sadd;
use super::flatten::{run_cols, wrap_rich, wrap_rich_spec, rich_rows_view};
use super::item::{RichSpan, RichView, BufferLink, LinkView, rich_views, link_views, ColumnAlign, Cell, cells_view, TableData, TableView};

verus! {

/// Display columns of a run of spans, summed (saturating at `usize::MAX`).
pub open spec fn cols_sum(spans: Seq<RichView>) -> int
    decreases spans.len(),
{
    if spans.len() == 0 {
        0
    } else {
        sat_usize(cols_sum(spans.drop_last()) + run_cols(spans.last()))
    }
}

/// Display columns of a cell's spans, grapheme-aware.
pub fn spans_cols(spans: &[RichSpan]) -> (n: usize)
    ensures
        n == cols_sum(rich_views(spans@)),
{
    let mut n: usize = 0;
    let mut i: usize = 0;
    while i < spans.len()
        invariant
            i <= spans@.len(),
            n == cols_sum(rich_views(spans@).take(i as int)),
        decreases spans@.len() - i,
    {
        proof {
            assert(rich_views(spans@).take(i as int + 1).drop_last() =~= rich_views(spans@).take(i as int));
        }
        n = n.saturating_add(str_cols(spans[i].content.as_str()) as usize);
        i = i + 1;
    }
    proof {
        assert(rich_views(spans@).take(i as int) =~= rich_views(spans@));
    }
    n
}

/// The `c`th cell of a row, or an empty run when the row is short.
pub open spec fn cell_at(row: Seq<Seq<RichView>>, c: int) -> Seq<RichView> {
    if 0 <= c < row.len() {
        row[c]
    } else {
        seq![]
    }
}

/// `n` copies of `c`.
pub open spec fn repeat(c: char, n: int) -> Seq<char>
    decreases n,
{
    if n <= 0 {
        seq![]
    } else {
        repeat(c, n - 1).push(c)
    }
}

fn repeat_char(c: char, n: usize) -> (s: String)
    ensures
        s@ == repeat(c, n as int),
{
    let mut s = String::new();
    let mut i: usize = 0;
    while i < n
        invariant
            i <= n,
            s@ == repeat(c, i as int),
        decreases n - i,
    {
        push_char(&mut s, c);
        i = i + 1;
    }
    s
}

/// The column segments of a rule row, for the first `k` columns: a run of
/// `─` two wider than the column, then `mid` (`right` after the last).
pub open spec fn rule_segs(mid: char, right: char, widths: Seq<usize>, k: int) -> Seq<char>
    decreases k,
{
    if k <= 0 {
        seq![]
    } else {
        rule_segs(mid, right, widths, k - 1) + repeat('─', widths[k - 1] + 2) + seq![
            if k == widths.len() {
                right
            } else {
                mid
            },
        ]
    }
}

/// A horizontal rule row: `left`, then the column segments.
pub open spec fn rule_text(left: char, mid: char, right: char, widths: Seq<usize>) -> Seq<char> {
    seq![left] + rule_segs(mid, right, widths, widths.len() as int)
}

fn rule_row_text(left: char, mid: char, right: char, widths: &[usize]) -> (s: String)
    requires
        forall|i: int| 0 <= i < widths@.len() ==> widths@[i] + 2 <= usize::MAX,
    ensures
        s@ == rule_text(left, mid, right, widths@),
{
    let mut s = String::new();
    push_char(&mut s, left);
    let mut i: usize = 0;
    while i < widths.len()
        invariant
            i <= widths@.len(),
            forall|k: int| 0 <= k < widths@.len() ==> widths@[k] + 2 <= usize::MAX,
            s@ == seq![left] + rule_segs(mid, right, widths@, i as int),
        decreases widths@.len() - i,
    {
        let dashes = repeat_char('─', widths[i] + 2);
        s.append(dashes.as_str());
        if i + 1 == widths.len() {
            push_char(&mut s, right);
        } else {
            push_char(&mut s, mid);
        }
        proof {
            assert(s@ =~= seq![left] + rule_segs(mid, right, widths@, i + 1));
        }
        i = i + 1;
    }
    s
}


/// The most cells any row of `rows` has.
pub open spec fn max_len(rows: Seq<Seq<Seq<RichView>>>) -> int
    decreases rows.len(),
{
    if rows.len() == 0 {
        0
    } else {
        let m = max_len(rows.drop_last());
        if rows.last().len() > m {
            rows.last().len() as int
        } else {
            m
        }
    }
}

/// How many columns a table lays out: the widest of its rows, at least one.
pub open spec fn table_cols(t: (Seq<ColumnAlign>, Seq<Seq<RichView>>, Seq<Seq<Seq<RichView>>>)) -> int {
    let h = t.1.len() as int;
    let m = max_len(t.2);
    let a = if h > m { h } else { m };
    if a > 1 { a } else { 1 }
}

/// The widest cell in column `c` over the first `k` rows.
pub open spec fn col_max(rows: Seq<Seq<Seq<RichView>>>, c: int, k: int) -> int
    decreases k,
{
    if k <= 0 {
        0
    } else {
        let m = col_max(rows, c, k - 1);
        let w = cols_sum(cell_at(rows[k - 1], c));
        if w > m { w } else { m }
    }
}

/// The width column `c` asks for: its widest cell, header included, at
/// least one.
pub open spec fn natural_width(t: (Seq<ColumnAlign>, Seq<Seq<RichView>>, Seq<Seq<Seq<RichView>>>), c: int) -> int {
    let h = cols_sum(cell_at(t.1, c));
    let b = col_max(t.2, c, t.2.len() as int);
    let m = if b > h { b } else { h };
    if m > 1 { m } else { 1 }
}

/// The sum of some widths, saturating at `usize::MAX`.
pub open spec fn wsum(w: Seq<usize>) -> int
    decreases w.len(),
{
    if w.len() == 0 {
        0
    } else {
        sat_usize(wsum(w.drop_last()) + w.last())
    }
}

/// The exact sum of some widths.
pub open spec fn true_sum(w: Seq<usize>) -> nat
    decreases w.len(),
{
    if w.len() == 0 {
        0
    } else {
        true_sum(w.drop_last()) + w.last() as nat
    }
}

/// The index of the last largest of `w[0..k]`.
pub open spec fn last_max(w: Seq<usize>, k: int) -> int
    decreases k,
{
    if k <= 1 {
        0
    } else {
        let b = last_max(w, k - 1);
        if w[k - 1] >= w[b] { k - 1 } else { b }
    }
}

pub proof fn lemma_last_max(w: Seq<usize>, k: int)
    requires
        1 <= k <= w.len(),
    ensures
        0 <= last_max(w, k) < k,
        forall|j: int| 0 <= j < k ==> #[trigger] w[j] <= w[last_max(w, k)],
    decreases k,
{
    if k > 1 {
        lemma_last_max(w, k - 1);
    }
}

pub proof fn lemma_true_sum_update(w: Seq<usize>, i: int, v: usize)
    requires
        0 <= i < w.len(),
    ensures
        true_sum(w.update(i, v)) == true_sum(w) - w[i] + v,
    decreases w.len(),
{
    let u = w.update(i, v);
    if i < w.len() - 1 {
        assert(u.drop_last() =~= w.drop_last().update(i, v));
        lemma_true_sum_update(w.drop_last(), i, v);
    } else {
        assert(u.drop_last() =~= w.drop_last());
    }
}

/// Narrow the widest column (the last of equals) by one until the widths fit
/// `budget` or every column is down to one.
pub open spec fn shrink(w: Seq<usize>, budget: int) -> Seq<usize>
    decreases true_sum(w),
{
    if w.len() == 0 || wsum(w) <= budget {
        w
    } else {
        let i = last_max(w, w.len() as int);
        proof {
            lemma_last_max(w, w.len() as int);
        }
        if w[i] <= 1 {
            w
        } else {
            proof {
                lemma_true_sum_update(w, i, (w[i] - 1) as usize);
            }
            shrink(w.update(i, (w[i] - 1) as usize), budget)
        }
    }
}

pub proof fn lemma_elem_le_wsum(w: Seq<usize>, i: int)
    requires
        0 <= i < w.len(),
    ensures
        w[i] <= wsum(w),
    decreases w.len(),
{
    lemma_wsum_range(w.drop_last());
    if i < w.len() - 1 {
        lemma_elem_le_wsum(w.drop_last(), i);
    }
}

pub proof fn lemma_wsum_range(w: Seq<usize>)
    ensures
        0 <= wsum(w) <= usize::MAX,
    decreases w.len(),
{
    if w.len() > 0 {
        lemma_wsum_range(w.drop_last());
    }
}

/// After shrinking, every width is still at least one, and either the widths
/// fit the budget or every column is down to one.
pub proof fn lemma_shrink_fits(w: Seq<usize>, budget: int)
    requires
        forall|i: int| 0 <= i < w.len() ==> w[i] >= 1,
    ensures
        shrink(w, budget).len() == w.len(),
        forall|i: int| 0 <= i < w.len() ==> shrink(w, budget)[i] >= 1,
        wsum(shrink(w, budget)) <= budget || forall|i: int| 0 <= i < w.len() ==> shrink(w, budget)[i] <= 1,
    decreases true_sum(w),
{
    if w.len() == 0 || wsum(w) <= budget {
    } else {
        let i = last_max(w, w.len() as int);
        lemma_last_max(w, w.len() as int);
        if w[i] <= 1 {
        } else {
            lemma_true_sum_update(w, i, (w[i] - 1) as usize);
            lemma_shrink_fits(w.update(i, (w[i] - 1) as usize), budget);
        }
    }
}

fn widths_sum(w: &Vec<usize>) -> (s: usize)
    ensures
        s == wsum(w@),
{
    let mut s: usize = 0;
    let mut i: usize = 0;
    while i < w.len()
        invariant
            i <= w@.len(),
            s == wsum(w@.take(i as int)),
        decreases w@.len() - i,
    {
        proof {
            assert(w@.take(i as int + 1).drop_last() =~= w@.take(i as int));
        }
        s = s.saturating_add(w[i]);
        i = i + 1;
    }
    proof {
        assert(w@.take(i as int) =~= w@);
    }
    s
}

fn last_max_index(w: &Vec<usize>) -> (r: usize)
    requires
        w@.len() > 0,
    ensures
        r == last_max(w@, w@.len() as int),
{
    let mut b: usize = 0;
    let mut k: usize = 1;
    while k < w.len()
        invariant
            1 <= k <= w@.len(),
            b == last_max(w@, k as int),
        decreases w@.len() - k,
    {
        proof {
            lemma_last_max(w@, k as int);
        }
        if w[k] >= w[b] {
            b = k;
        }
        k = k + 1;
    }
    b
}

/// Shrink `widths` in place to fit `budget` (see [`shrink`]).
fn shrink_widths(widths: &mut Vec<usize>, budget: usize)
    ensures
        final(widths)@ == shrink(old(widths)@, budget as int),
{
    let ghost target = shrink(widths@, budget as int);
    loop
        invariant
            shrink(widths@, budget as int) == target,
        ensures
            widths@ == target,
        decreases true_sum(widths@),
    {
        if widths.len() == 0 {
            break;
        }
        let s = widths_sum(widths);
        if s <= budget {
            break;
        }
        let idx = last_max_index(widths);
        proof {
            lemma_last_max(widths@, widths@.len() as int);
        }
        if widths[idx] <= 1 {
            break;
        }
        let v = widths[idx] - 1;
        proof {
            lemma_true_sum_update(widths@, idx as int, v);
        }
        widths.set(idx, v);
    }
}


/// What one table row's cells wrap to, per column.
pub type WrappedRows = Seq<(Seq<RichView>, Seq<LinkView>)>;

/// The rows cell `c` wraps to at its column's width; one empty row for an
/// empty cell.
pub open spec fn wrapped_cell(row: Seq<Seq<RichView>>, widths: Seq<usize>, c: int) -> WrappedRows {
    let cell = cell_at(row, c);
    if cell.len() == 0 {
        seq![(seq![], seq![])]
    } else {
        let w = if widths[c] > 1 { widths[c] as int } else { 1 };
        let lines = wrap_rich_spec(cell, w);
        if lines.len() == 0 {
            seq![(seq![], seq![])]
        } else {
            lines
        }
    }
}

/// The most rows any of the first `k` cells wraps to.
pub open spec fn height_upto(row: Seq<Seq<RichView>>, widths: Seq<usize>, k: int) -> int
    decreases k,
{
    if k <= 0 {
        0
    } else {
        let h = height_upto(row, widths, k - 1);
        let n = wrapped_cell(row, widths, k - 1).len() as int;
        if n > h { n } else { h }
    }
}

/// Row `r` of cell `c`'s wrapped rows, or an empty row below its last.
pub open spec fn entry(row: Seq<Seq<RichView>>, widths: Seq<usize>, c: int, r: int) -> (Seq<RichView>, Seq<LinkView>) {
    let wc = wrapped_cell(row, widths, c);
    if 0 <= r < wc.len() {
        wc[r]
    } else {
        (seq![], seq![])
    }
}

/// An unstyled run of `n` spaces.
pub open spec fn space_run(n: int) -> RichView {
    (repeat(' ', n), Style::spec_empty(), None)
}

/// Left and right padding for `pad` spare columns under `align`.
pub open spec fn align_split(align: ColumnAlign, pad: int) -> (int, int) {
    match align {
        ColumnAlign::Right => (pad, 0),
        ColumnAlign::Center => (pad / 2, pad - pad / 2),
        _ => (0, pad),
    }
}

/// The alignment of column `c`, `Unset` past the delimiter row's end.
pub open spec fn align_at(aligns: Seq<ColumnAlign>, c: int) -> ColumnAlign {
    if 0 <= c < aligns.len() {
        aligns[c]
    } else {
        ColumnAlign::Unset
    }
}

/// One more cell on a boxed row: a gutter space, the content padded to the
/// column width by its alignment, a gutter space and the column rule. Link
/// runs of the content move to the column where it lands.
pub open spec fn cell_step(
    acc: (Seq<RichView>, Seq<LinkView>, int),
    e: (Seq<RichView>, Seq<LinkView>),
    width: int,
    align: ColumnAlign,
    border: Style,
) -> (Seq<RichView>, Seq<LinkView>, int) {
    let cw = (cols_sum(e.0) as u16) as int;
    let pad = if width > cw { width - cw } else { 0 };
    let (left, right) = align_split(align, pad);
    let col2 = sadd(sadd(acc.2, 1), left);
    let links = acc.1 + e.1.map_values(|l: LinkView| (l.0, sadd(l.1, col2), sadd(l.2, col2), l.3));
    let col5 = sadd(sadd(sadd(sadd(col2, cw), right), 1), 1);
    let spans = acc.0 + seq![space_run(1)] + (if left > 0 { seq![space_run(left)] } else { seq![] }) + e.0 + (
    if right > 0 {
        seq![space_run(right)]
    } else {
        seq![]
    }) + seq![space_run(1), (seq!['│'], border, None)];
    (spans, links, col5)
}

/// How a cell sits in its column: after the gutter space the spare width
/// `pad` is split into `left` spaces before the content and `right` after
/// it (the split `align_split` names), `left + right == pad`. A left (or unset) column puts it all after
/// the content, a right column all before, and a centred column splits it
/// evenly, the odd space going right.
pub proof fn lemma_cell_alignment(
    acc: (Seq<RichView>, Seq<LinkView>, int),
    e: (Seq<RichView>, Seq<LinkView>),
    width: int,
    align: ColumnAlign,
    border: Style,
)
    ensures
        ({
            let cw = (cols_sum(e.0) as u16) as int;
            let pad = if width > cw { width - cw } else { 0 };
            let (left, right) = align_split(align, pad);
            &&& left >= 0 && right >= 0 && left + right == pad
            &&& cell_step(acc, e, width, align, border).0 == acc.0 + seq![space_run(1)] + (if left > 0 {
                seq![space_run(left)]
            } else {
                seq![]
            }) + e.0 + (if right > 0 {
                seq![space_run(right)]
            } else {
                seq![]
            }) + seq![space_run(1), (seq!['│'], border, None)]
            &&& (align == ColumnAlign::Left || align == ColumnAlign::Unset) ==> left == 0
            &&& align == ColumnAlign::Right ==> right == 0
            &&& align == ColumnAlign::Center ==> left <= right <= left + 1
        }),
{
    let cw = (cols_sum(e.0) as u16) as int;
    let pad = if width > cw { width - cw } else { 0 };
    let (left, right) = align_split(align, pad);
    assert(left >= 0 && right >= 0 && left + right == pad);
}

/// Visual row `r` of a table row, through its first `c` columns: runs,
/// link runs and the column reached.
pub open spec fn row_line(
    row: Seq<Seq<RichView>>,
    widths: Seq<usize>,
    aligns: Seq<ColumnAlign>,
    border: Style,
    r: int,
    c: int,
) -> (Seq<RichView>, Seq<LinkView>, int)
    decreases c,
{
    if c <= 0 {
        (seq![(seq!['│'], border, None)], seq![], 1)
    } else {
        cell_step(
            row_line(row, widths, aligns, border, r, c - 1),
            entry(row, widths, c - 1, r),
            widths[c - 1] as int,
            align_at(aligns, c - 1),
            border,
        )
    }
}

/// The visual rows one table row takes: as many as its tallest cell wraps to.
pub open spec fn cell_rows(row: Seq<Seq<RichView>>, widths: Seq<usize>, aligns: Seq<ColumnAlign>, border: Style) -> WrappedRows {
    Seq::new(
        height_upto(row, widths, widths.len() as int) as nat,
        |r: int|
            {
                let t = row_line(row, widths, aligns, border, r, widths.len() as int);
                (t.0, t.1)
            },
    )
}

fn space_span(n: usize) -> (s: RichSpan)
    ensures
        s@ == space_run(n as int),
{
    RichSpan { content: repeat_char(' ', n), style: Style::new(), href: None }
}

fn empty_rows() -> (v: Vec<(Vec<RichSpan>, Vec<BufferLink>)>)
    ensures
        rich_rows_view(v@) == seq![(Seq::<RichView>::empty(), Seq::<LinkView>::empty())],
{
    let e0: Vec<RichSpan> = Vec::new();
    let e1: Vec<BufferLink> = Vec::new();
    proof {
        assert(rich_views(e0@) =~= Seq::<RichView>::empty());
        assert(link_views(e1@) =~= Seq::<LinkView>::empty());
    }
    let mut v: Vec<(Vec<RichSpan>, Vec<BufferLink>)> = Vec::new();
    v.push((e0, e1));
    proof {
        assert(rich_rows_view(v@) =~= seq![(Seq::<RichView>::empty(), Seq::<LinkView>::empty())]);
    }
    v
}

fn bar_span(border: Style) -> (s: RichSpan)
    ensures
        s@ == (seq!['│'], border, Option::<Seq<char>>::None),
{
    let bar = String::from_str("│");
    proof {
        reveal_strlit("│");
        assert(bar@ =~= seq!['│']);
    }
    RichSpan { content: bar, style: border, href: None }
}

/// Append one cell to a boxed row under construction (see [`cell_step`]).
fn append_cell(
    spans: &mut Vec<RichSpan>,
    links: &mut Vec<BufferLink>,
    col: u16,
    content: &[RichSpan],
    cell_links: &[BufferLink],
    width: u16,
    align: ColumnAlign,
    border: Style,
) -> (col_out: u16)
    ensures
        (rich_views(final(spans)@), link_views(final(links)@), col_out as int) == cell_step(
            (rich_views(old(spans)@), link_views(old(links)@), col as int),
            (rich_views(content@), link_views(cell_links@)),
            width as int,
            align,
            border,
        ),
{
    let ghost acc = (rich_views(spans@), link_views(links@), col as int);
    let ghost e = (rich_views(content@), link_views(cell_links@));
    let content_w = spans_cols(content) as u16;
    let pad = width.saturating_sub(content_w);
    let (left, right) = match align {
        ColumnAlign::Right => (pad, 0u16),
        ColumnAlign::Center => (pad / 2, pad - pad / 2),
        _ => (0u16, pad),
    };
    let mut col = col;
    spans.push(space_span(1));
    col = col.saturating_add(1);
    let ghost s1 = rich_views(spans@);
    proof {
        assert(s1 =~= acc.0.push(space_run(1)));
    }
    if left > 0 {
        spans.push(space_span(left as usize));
        col = col.saturating_add(left);
    }
    let ghost s2 = rich_views(spans@);
    proof {
        if left > 0 {
            assert(s2 =~= s1.push(space_run(left as int)));
        } else {
            assert(s2 =~= s1);
        }
    }
    let ghost col2 = col as int;
    let ghost links0 = link_views(links@);
    let mut j: usize = 0;
    while j < cell_links.len()
        invariant
            j <= cell_links@.len(),
            link_views(links@) == links0 + link_views(cell_links@).take(j as int).map_values(
                |l: LinkView| (l.0, sadd(l.1, col as int), sadd(l.2, col as int), l.3),
            ),
        decreases cell_links@.len() - j,
    {
        let bl = &cell_links[j];
        let moved = BufferLink {
            line: bl.line,
            start_col: bl.start_col.saturating_add(col),
            end_col: bl.end_col.saturating_add(col),
            url: bl.url.clone(),
        };
        let ghost pre = link_views(links@);
        links.push(moved);
        proof {
            assert(link_views(links@) =~= pre.push(
                (bl.line as int, sadd(bl.start_col as int, col as int), sadd(bl.end_col as int, col as int), bl.url@),
            ));
            assert(link_views(cell_links@).take(j as int + 1) =~= link_views(cell_links@).take(j as int).push(
                bl@,
            ));
            assert(link_views(links@) =~= links0 + link_views(cell_links@).take(j as int + 1).map_values(
                |l: LinkView| (l.0, sadd(l.1, col as int), sadd(l.2, col as int), l.3),
            ));
        }
        j = j + 1;
    }
    proof {
        assert(link_views(cell_links@).take(j as int) =~= link_views(cell_links@));
    }
    let mut q: usize = 0;
    while q < content.len()
        invariant
            q <= content@.len(),
            rich_views(spans@) == s2 + rich_views(content@).take(q as int),
        decreases content@.len() - q,
    {
        let ghost pre = rich_views(spans@);
        let cl = content[q].clone();
        spans.push(cl);
        proof {
            assert(rich_views(spans@) =~= pre.push(content@[q as int]@));
            assert(rich_views(content@).take(q as int + 1) =~= rich_views(content@).take(q as int).push(
                content@[q as int]@,
            ));
        }
        q = q + 1;
    }
    proof {
        assert(rich_views(content@).take(q as int) =~= rich_views(content@));
    }
    let ghost s3 = rich_views(spans@);
    col = col.saturating_add(content_w);
    if right > 0 {
        spans.push(space_span(right as usize));
        col = col.saturating_add(right);
    }
    let ghost s4 = rich_views(spans@);
    proof {
        if right > 0 {
            assert(s4 =~= s3.push(space_run(right as int)));
        } else {
            assert(s4 =~= s3);
        }
    }
    spans.push(space_span(1));
    col = col.saturating_add(1);
    spans.push(bar_span(border));
    col = col.saturating_add(1);
    proof {
        let step = cell_step(acc, e, width as int, align, border);
        assert(rich_views(spans@) =~= s4.push(space_run(1)).push((seq!['│'], border, None)));
        assert(link_views(links@) =~= step.1);
        assert(col as int == step.2);
        assert(rich_views(spans@) =~= step.0);
    }
    col
}

fn cell_rows_linked(
    row: &[Cell],
    widths: &[usize],
    aligns: &[ColumnAlign],
    border: Style,
    cols: usize,
) -> (lines: Vec<(Vec<RichSpan>, Vec<BufferLink>)>)
    requires
        widths@.len() == cols,
        cols >= 1,
        forall|i: int| 0 <= i < widths@.len() ==> widths@[i] <= u16::MAX,
    ensures
        rich_rows_view(lines@) == cell_rows(cells_view(row@), widths@, aligns@, border),
{
    let ghost rv = cells_view(row@);
    let mut wrapped: Vec<Vec<(Vec<RichSpan>, Vec<BufferLink>)>> = Vec::new();
    let mut c: usize = 0;
    while c < cols
        invariant
            c <= cols,
            widths@.len() == cols,
            rv == cells_view(row@),
            forall|i: int| 0 <= i < widths@.len() ==> widths@[i] <= u16::MAX,
            wrapped@.len() == c,
            forall|k: int| 0 <= k < c ==> rich_rows_view(#[trigger] wrapped@[k]@) == wrapped_cell(rv, widths@, k),
        decreases cols - c,
    {
        let empty_cell: bool = c >= row.len() || row[c].len() == 0;
        let lines = if empty_cell {
            empty_rows()
        } else {
            let w: u16 = if widths[c] > 1 { widths[c] as u16 } else { 1 };
            let cell = row[c].as_slice();
            proof {
                assert(cell@ == row@[c as int]@);
                assert(rv[c as int] == rich_views(row@[c as int]@));
            }
            let l = wrap_rich(cell, w);
            if l.len() == 0 {
                empty_rows()
            } else {
                l
            }
        };
        proof {
            if c < row@.len() {
                assert(rv[c as int] == rich_views(row@[c as int]@));
            }
            assert(rich_rows_view(lines@) == wrapped_cell(rv, widths@, c as int));
        }
        wrapped.push(lines);
        c = c + 1;
    }
    let mut height: usize = 0;
    let mut k: usize = 0;
    while k < cols
        invariant
            k <= cols,
            wrapped@.len() == cols,
            widths@.len() == cols,
            forall|i: int| 0 <= i < cols ==> rich_rows_view(#[trigger] wrapped@[i]@) == wrapped_cell(rv, widths@, i),
            height == height_upto(rv, widths@, k as int),
        decreases cols - k,
    {
        proof {
            assert(rich_rows_view(wrapped@[k as int]@) == wrapped_cell(rv, widths@, k as int));
        }
        if wrapped[k].len() > height {
            height = wrapped[k].len();
        }
        k = k + 1;
    }
    let ghost target = cell_rows(rv, widths@, aligns@, border);
    let mut lines: Vec<(Vec<RichSpan>, Vec<BufferLink>)> = Vec::new();
    let mut r: usize = 0;
    while r < height
        invariant
            r <= height,
            height == height_upto(rv, widths@, cols as int),
            wrapped@.len() == cols,
            widths@.len() == cols,
            rv == cells_view(row@),
            forall|i: int| 0 <= i < widths@.len() ==> widths@[i] <= u16::MAX,
            forall|i: int| 0 <= i < cols ==> rich_rows_view(#[trigger] wrapped@[i]@) == wrapped_cell(rv, widths@, i),
            target == cell_rows(rv, widths@, aligns@, border),
            rich_rows_view(lines@) == target.take(r as int),
        decreases height - r,
    {
        let mut spans: Vec<RichSpan> = Vec::new();
        spans.push(bar_span(border));
        let mut links: Vec<BufferLink> = Vec::new();
        let mut col: u16 = 1;
        proof {
            assert(rich_views(spans@) =~= row_line(rv, widths@, aligns@, border, r as int, 0).0);
            assert(link_views(links@) =~= row_line(rv, widths@, aligns@, border, r as int, 0).1);
        }
        let mut c: usize = 0;
        while c < cols
            invariant
                c <= cols,
                wrapped@.len() == cols,
                widths@.len() == cols,
                forall|i: int| 0 <= i < widths@.len() ==> widths@[i] <= u16::MAX,
                forall|i: int| 0 <= i < cols ==> rich_rows_view(#[trigger] wrapped@[i]@) == wrapped_cell(rv, widths@, i),
                (rich_views(spans@), link_views(links@), col as int) == row_line(rv, widths@, aligns@, border, r as int, c as int),
            decreases cols - c,
        {
            proof {
                assert(rich_rows_view(wrapped@[c as int]@) == wrapped_cell(rv, widths@, c as int));
            }
            let align = if c < aligns.len() { aligns[c] } else { ColumnAlign::Unset };
            let width = widths[c] as u16;
            if r < wrapped[c].len() {
                let pair = &wrapped[c][r];
                proof {
                    assert(rich_rows_view(wrapped@[c as int]@)[r as int] == (rich_views(pair.0@), link_views(pair.1@)));
                }
                col = append_cell(&mut spans, &mut links, col, pair.0.as_slice(), pair.1.as_slice(), width, align, border);
            } else {
                let empty_spans: Vec<RichSpan> = Vec::new();
                let empty_links: Vec<BufferLink> = Vec::new();
                proof {
                    assert(rich_views(empty_spans@) =~= Seq::<RichView>::empty());
                    assert(link_views(empty_links@) =~= Seq::<LinkView>::empty());
                }
                col = append_cell(&mut spans, &mut links, col, empty_spans.as_slice(), empty_links.as_slice(), width, align, border);
            }
            c = c + 1;
        }
        let ghost pre_lines = rich_rows_view(lines@);
        lines.push((spans, links));
        proof {
            assert(target[r as int] == (rich_views(spans@), link_views(links@)));
            assert(rich_rows_view(lines@) =~= pre_lines.push(target[r as int]));
            assert(target.take(r as int + 1) =~= target.take(r as int).push(target[r as int]));
        }
        r = r + 1;
    }
    proof {
        assert(target.len() == height);
        assert(target.take(r as int) =~= target);
    }
    lines
}


/// A table row's cells joined into one run for the plain layout: cells in
/// order, ` | ` in `sep` between them.
pub open spec fn join_row(row: Seq<Seq<RichView>>, cols: int, sep: Style) -> Seq<RichView>
    decreases cols,
{
    if cols <= 0 {
        seq![]
    } else {
        let pre = join_row(row, cols - 1, sep);
        (if cols > 1 {
            pre.push((seq![' ', '|', ' '], sep, None))
        } else {
            pre
        }) + cell_at(row, cols - 1)
    }
}

/// The plain rows of the first `k` body rows.
pub open spec fn body_plain(rows: Seq<Seq<Seq<RichView>>>, cols: int, width: int, sep: Style, k: int) -> WrappedRows
    decreases k,
{
    if k <= 0 {
        seq![]
    } else {
        body_plain(rows, cols, width, sep, k - 1) + wrap_rich_spec(join_row(rows[k - 1], cols, sep), width)
    }
}

/// The boxed rows of the first `k` body rows.
pub open spec fn body_boxed(
    rows: Seq<Seq<Seq<RichView>>>,
    widths: Seq<usize>,
    aligns: Seq<ColumnAlign>,
    border: Style,
    k: int,
) -> WrappedRows
    decreases k,
{
    if k <= 0 {
        seq![]
    } else {
        body_boxed(rows, widths, aligns, border, k - 1) + cell_rows(rows[k - 1], widths, aligns, border)
    }
}

/// A rule row in `border`, with no links.
pub open spec fn rule_line(left: char, mid: char, right: char, widths: Seq<usize>, border: Style) -> (
    Seq<RichView>,
    Seq<LinkView>,
) {
    (seq![(rule_text(left, mid, right, widths), border, None)], seq![])
}

/// The boxed layout: a top rule, the header rows, a separator rule, the body
/// rows and a bottom rule.
pub open spec fn boxed_table(t: TableView, widths: Seq<usize>, border: Style) -> WrappedRows {
    seq![rule_line('╭', '┬', '╮', widths, border)] + cell_rows(t.1, widths, t.0, border) + seq![
        rule_line('├', '┼', '┤', widths, border),
    ] + body_boxed(t.2, widths, t.0, border, t.2.len() as int) + seq![rule_line('╰', '┴', '╯', widths, border)]
}

/// The column widths the boxed layout uses at `width`: each column's
/// natural width, shrunk to the space left by the borders and gutters.
pub open spec fn table_widths(t: TableView, width: int) -> Seq<usize> {
    let cols = table_cols(t);
    let b0 = width - (3 * cols + 1);
    let b1 = if b0 > 0 { b0 } else { 0 };
    let budget = if b1 > cols { b1 } else { cols };
    shrink(Seq::new(cols as nat, |c: int| natural_width(t, c) as usize), budget)
}

/// A table laid out to `width`: boxed when each column can get at least one
/// cell of content, else the plain ` | `-joined rows wrapped to the width.
pub open spec fn render_table_spec(t: TableView, width: int, dim: Color) -> WrappedRows {
    let cols = table_cols(t);
    let border = Style { fg: Some(dim), ..Style::spec_empty() };
    if width < 4 * cols + 1 {
        body_plain(seq![t.1], cols, width, border, 1) + body_plain(t.2, cols, width, border, t.2.len() as int)
    } else {
        boxed_table(t, table_widths(t, width), border)
    }
}

fn extend_rows(out: &mut Vec<(Vec<RichSpan>, Vec<BufferLink>)>, more: Vec<(Vec<RichSpan>, Vec<BufferLink>)>)
    ensures
        rich_rows_view(final(out)@) == rich_rows_view(old(out)@) + rich_rows_view(more@),
{
    let mut more = more;
    let ghost m = more@;
    out.append(&mut more);
    proof {
        assert(rich_rows_view(out@) =~= rich_rows_view(old(out)@) + rich_rows_view(m));
    }
}

/// `row` joined for the plain layout (see [`join_row`]).
fn join_cells(row: &[Cell], cols: usize, sep: Style) -> (spans: Vec<RichSpan>)
    ensures
        rich_views(spans@) == join_row(cells_view(row@), cols as int, sep),
{
    let ghost rv = cells_view(row@);
    let mut spans: Vec<RichSpan> = Vec::new();
    let mut c: usize = 0;
    while c < cols
        invariant
            c <= cols,
            rv == cells_view(row@),
            rich_views(spans@) == join_row(rv, c as int, sep),
        decreases cols - c,
    {
        let ghost pre = rich_views(spans@);
        if c > 0 {
            let bar = String::from_str(" | ");
            proof {
                reveal_strlit(" | ");
                assert(bar@ =~= seq![' ', '|', ' ']);
            }
            spans.push(RichSpan { content: bar, style: sep, href: None });
        }
        let ghost mid = rich_views(spans@);
        proof {
            if c > 0 {
                assert(mid =~= pre.push((seq![' ', '|', ' '], sep, None)));
            } else {
                assert(mid =~= pre);
            }
        }
        if c < row.len() {
            let cell = &row[c];
            proof {
                assert(rv[c as int] == rich_views(cell@));
            }
            let mut q: usize = 0;
            while q < cell.len()
                invariant
                    q <= cell@.len(),
                    rich_views(spans@) == mid + rich_views(cell@).take(q as int),
                decreases cell@.len() - q,
            {
                let ghost p = rich_views(spans@);
                spans.push(cell[q].clone());
                proof {
                    assert(rich_views(spans@) =~= p.push(cell@[q as int]@));
                    assert(rich_views(cell@).take(q as int + 1) =~= rich_views(cell@).take(q as int).push(
                        cell@[q as int]@,
                    ));
                }
                q = q + 1;
            }
            proof {
                assert(rich_views(cell@).take(q as int) =~= rich_views(cell@));
                assert(rich_views(spans@) =~= join_row(rv, c + 1, sep));
            }
        } else {
            proof {
                assert(cell_at(rv, c as int) =~= Seq::<RichView>::empty());
                assert(rich_views(spans@) =~= join_row(rv, c + 1, sep));
            }
        }
        c = c + 1;
    }
    spans
}


proof fn lemma_narrow(w: int, c: int)
    requires
        0 <= w,
        0 <= c,
    ensures
        (w < 4 * c + 1) <==> (c >= (w + 3) / 4),
{
    assert((w < 4 * c + 1) <==> (c >= (w + 3) / 4)) by (nonlinear_arith)
        requires
            0 <= w,
            0 <= c,
    ;
}

/// Columns of cell `c` of `row` (zero past the row's end).
fn cell_cols(row: &[Cell], c: usize) -> (n: usize)
    ensures
        n == cols_sum(cell_at(cells_view(row@), c as int)),
{
    if c < row.len() {
        let sl = row[c].as_slice();
        proof {
            assert(cells_view(row@)[c as int] == rich_views(row@[c as int]@));
        }
        spans_cols(sl)
    } else {
        0
    }
}

/// The plain layout: header and body rows joined with ` | ` and wrapped.
fn plain_table_rows(table: &TableData, width: u16, cols: usize, border: Style) -> (out: Vec<(Vec<RichSpan>, Vec<BufferLink>)>)
    ensures
        rich_rows_view(out@) == body_plain(seq![table@.1], cols as int, width as int, border, 1) + body_plain(
            table@.2,
            cols as int,
            width as int,
            border,
            table@.2.len() as int,
        ),
{
    let ghost t = table@;
    let mut out: Vec<(Vec<RichSpan>, Vec<BufferLink>)> = Vec::new();
    let hsl = table.header.as_slice();
    proof {
        assert(hsl@ == table.header@);
    }
    let head = join_cells(hsl, cols, border);
    let hs = head.as_slice();
    proof {
        assert(hs@ == head@);
    }
    let wrapped = wrap_rich(hs, width);
    extend_rows(&mut out, wrapped);
    let ghost head_rows = rich_rows_view(out@);
    proof {
        assert(seq![t.1][0] == t.1);
        assert(body_plain(seq![t.1], cols as int, width as int, border, 0) =~= Seq::<(Seq<RichView>, Seq<LinkView>)>::empty());
        assert(head_rows =~= body_plain(seq![t.1], cols as int, width as int, border, 1));
        assert(head_rows =~= head_rows + body_plain(t.2, cols as int, width as int, border, 0));
    }
    let mut r: usize = 0;
    while r < table.rows.len()
        invariant
            r <= table.rows@.len(),
            t == table@,
            rich_rows_view(out@) == head_rows + body_plain(t.2, cols as int, width as int, border, r as int),
        decreases table.rows@.len() - r,
    {
        let rsl = table.rows[r].as_slice();
        proof {
            assert(rsl@ == table.rows@[r as int]@);
            assert(t.2[r as int] == cells_view(table.rows@[r as int]@));
        }
        let joined = join_cells(rsl, cols, border);
        let js = joined.as_slice();
        proof {
            assert(js@ == joined@);
        }
        let wrapped = wrap_rich(js, width);
        extend_rows(&mut out, wrapped);
        proof {
            assert(rich_rows_view(out@) =~= head_rows + body_plain(t.2, cols as int, width as int, border, r + 1));
        }
        r = r + 1;
    }
    out
}

/// The column widths the boxed layout uses (see [`table_widths`]).
fn fit_widths(table: &TableData, width: u16, cols: usize) -> (widths: Vec<usize>)
    requires
        cols == table_cols(table@),
        width as int >= 4 * cols + 1,
    ensures
        widths@ == table_widths(table@, width as int),
        widths@.len() == cols,
        forall|k: int| 0 <= k < widths@.len() ==> 1 <= #[trigger] widths@[k] <= u16::MAX,
{
    let ghost t = table@;
    let ghost natural = Seq::new(cols as nat, |c: int| natural_width(t, c) as usize);
    let mut widths: Vec<usize> = Vec::new();
    let mut c: usize = 0;
    while c < cols
        invariant
            c <= cols,
            t == table@,
            natural == Seq::new(cols as nat, |c: int| natural_width(t, c) as usize),
            widths@ == natural.take(c as int),
            forall|k: int| 0 <= k < c ==> #[trigger] widths@[k] >= 1,
        decreases cols - c,
    {
        let hsl = table.header.as_slice();
        proof {
            assert(hsl@ == table.header@);
        }
        let mut w = cell_cols(hsl, c);
        let mut r: usize = 0;
        while r < table.rows.len()
            invariant
                r <= table.rows@.len(),
                t == table@,
                ({
                    let b = col_max(t.2, c as int, r as int);
                    let h = cols_sum(cell_at(t.1, c as int));
                    w == if b > h { b } else { h }
                }),
            decreases table.rows@.len() - r,
        {
            let rsl = table.rows[r].as_slice();
            proof {
                assert(rsl@ == table.rows@[r as int]@);
                assert(t.2[r as int] == cells_view(table.rows@[r as int]@));
            }
            let x = cell_cols(rsl, c);
            if x > w {
                w = x;
            }
            r = r + 1;
        }
        if w < 1 {
            w = 1;
        }
        widths.push(w);
        proof {
            assert(widths@ =~= natural.take(c + 1));
        }
        c = c + 1;
    }
    proof {
        assert(natural.take(c as int) =~= natural);
        assert(forall|k: int| 0 <= k < natural.len() ==> natural[k] == widths@[k]);
    }
    let mut budget = (width as usize).saturating_sub(3 * cols + 1);
    if budget < cols {
        budget = cols;
    }
    shrink_widths(&mut widths, budget);
    proof {
        lemma_shrink_fits(natural, budget as int);
        assert forall|k: int| 0 <= k < widths@.len() implies 1 <= #[trigger] widths@[k] <= u16::MAX by {
            if wsum(widths@) <= budget {
                lemma_elem_le_wsum(widths@, k);
            }
        }
    }
    widths
}

fn rule_row(left: char, mid: char, right: char, widths: &[usize], border: Style) -> (r: (Vec<RichSpan>, Vec<BufferLink>))
    requires
        forall|k: int| 0 <= k < widths@.len() ==> widths@[k] <= u16::MAX,
    ensures
        (rich_views(r.0@), link_views(r.1@)) == rule_line(left, mid, right, widths@, border),
{
    let mut spans: Vec<RichSpan> = Vec::new();
    spans.push(RichSpan { content: rule_row_text(left, mid, right, widths), style: border, href: None });
    let links: Vec<BufferLink> = Vec::new();
    proof {
        assert(rich_views(spans@) =~= rule_line(left, mid, right, widths@, border).0);
        assert(link_views(links@) =~= rule_line(left, mid, right, widths@, border).1);
    }
    (spans, links)
}

/// The boxed layout (see [`boxed_table`]).
fn boxed_table_rows(table: &TableData, widths: &[usize], border: Style) -> (out: Vec<(Vec<RichSpan>, Vec<BufferLink>)>)
    requires
        widths@.len() >= 1,
        forall|k: int| 0 <= k < widths@.len() ==> widths@[k] <= u16::MAX,
    ensures
        rich_rows_view(out@) == boxed_table(table@, widths@, border),
{
    let ghost t = table@;
    let ghost wv = widths@;
    let cols = widths.len();
    let mut out: Vec<(Vec<RichSpan>, Vec<BufferLink>)> = Vec::new();
    out.push(rule_row('╭', '┬', '╮', widths, border));
    proof {
        assert(rich_rows_view(out@) =~= seq![rule_line('╭', '┬', '╮', wv, border)]);
    }
    let hsl = table.header.as_slice();
    let asl = table.aligns.as_slice();
    proof {
        assert(hsl@ == table.header@);
        assert(asl@ == table.aligns@);
    }
    let head = cell_rows_linked(hsl, widths, asl, border, cols);
    extend_rows(&mut out, head);
    let ghost o1 = rich_rows_view(out@);
    out.push(rule_row('├', '┼', '┤', widths, border));
    let ghost o2 = rich_rows_view(out@);
    proof {
        assert(o2 =~= o1.push(rule_line('├', '┼', '┤', wv, border)));
        assert(o2 =~= o2 + body_boxed(t.2, wv, t.0, border, 0));
    }
    let mut r: usize = 0;
    while r < table.rows.len()
        invariant
            r <= table.rows@.len(),
            t == table@,
            wv == widths@,
            widths@.len() == cols,
            cols >= 1,
            asl@ == table.aligns@,
            forall|k: int| 0 <= k < widths@.len() ==> widths@[k] <= u16::MAX,
            rich_rows_view(out@) == o2 + body_boxed(t.2, wv, t.0, border, r as int),
        decreases table.rows@.len() - r,
    {
        let rsl = table.rows[r].as_slice();
        proof {
            assert(rsl@ == table.rows@[r as int]@);
            assert(t.2[r as int] == cells_view(table.rows@[r as int]@));
        }
        let rows = cell_rows_linked(rsl, widths, asl, border, cols);
        extend_rows(&mut out, rows);
        proof {
            assert(rich_rows_view(out@) =~= o2 + body_boxed(t.2, wv, t.0, border, r + 1));
        }
        r = r + 1;
    }
    let ghost o3 = rich_rows_view(out@);
    out.push(rule_row('╰', '┴', '╯', widths, border));
    proof {
        assert(rich_rows_view(out@) =~= o3.push(rule_line('╰', '┴', '╯', wv, border)));
        assert(rich_rows_view(out@) =~= boxed_table(t, wv, border));
    }
    out
}

/// Lay a table out to `width` columns with box-drawing borders. Column widths
/// fit the content, narrowing the widest columns (and wrapping their cells)
/// until the whole table fits; link targets in cells are kept. Too narrow
/// for a box, the rows are joined with ` | ` and wrapped instead.
pub fn render_table_linked(table: &TableData, width: u16, theme: &Theme) -> (out: Vec<(Vec<RichSpan>, Vec<BufferLink>)>)
    ensures
        rich_rows_view(out@) == render_table_spec(table@, width as int, theme.dim),
{
    let ghost t = table@;
    let mut m: usize = 0;
    let mut i: usize = 0;
    while i < table.rows.len()
        invariant
            i <= table.rows@.len(),
            t == table@,
            m == max_len(t.2.take(i as int)),
        decreases table.rows@.len() - i,
    {
        proof {
            assert(t.2.take(i as int + 1).drop_last() =~= t.2.take(i as int));
            assert(t.2[i as int].len() == table.rows@[i as int]@.len());
        }
        if table.rows[i].len() > m {
            m = table.rows[i].len();
        }
        i = i + 1;
    }
    proof {
        assert(t.2.take(i as int) =~= t.2);
    }
    let mut cols = table.header.len();
    if m > cols {
        cols = m;
    }
    if cols < 1 {
        cols = 1;
    }
    proof {
        assert(cols == table_cols(t));
        lemma_narrow(width as int, cols as int);
    }
    let border = Style::new().fg(theme.dim);
    if cols >= (width as usize + 3) / 4 {
        return plain_table_rows(table, width, cols, border);
    }
    let widths = fit_widths(table, width, cols);
    let ws = widths.as_slice();
    proof {
        assert(ws@ == widths@);
    }
    boxed_table_rows(table, ws, border)
}

} // verus!
