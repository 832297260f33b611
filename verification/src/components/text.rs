//! Text and paragraph components, and the word-wrap solver behind them.

use vstd::prelude::*;
use crate::geometry::{Rect, Size, sat_add, sat_sub};
use crate::graphemes::{graphemes, views, grapheme_clusters, chars_of, push_char};
use crate::style::Style;
use crate::buffer::CellView;
use crate::surface::{Surface, clipped_write};
use crate::text::{Alignment, Line, Span, spans_width, spans_cols};
use crate::view::RenderCtx;
use crate::width::{cap16, char_width, cluster_cols, grapheme_cols, str_cols, text_cols};

verus! {

pub open spec fn spec_aligned_x(alignment: Alignment, content_width: int, area: Rect) -> int {
    let slack = sat_sub(area.width as int, content_width);
    match alignment {
        Alignment::Left => area.x as int,
        Alignment::Center => sat_add(area.x as int, slack / 2),
        Alignment::Right => sat_add(area.x as int, slack),
    }
}

/// Starting column for `content_width` columns placed in `area` under
/// `alignment`; content wider than the area pins to the left edge.
pub fn aligned_x(alignment: Alignment, content_width: u16, area: Rect) -> (x: u16)
    ensures
        x == spec_aligned_x(alignment, content_width as int, area),
{
    let slack = area.width.saturating_sub(content_width);
    match alignment {
        Alignment::Left => area.x,
        Alignment::Center => area.x.saturating_add(slack / 2),
        Alignment::Right => area.x.saturating_add(slack),
    }
}

/// Display width of a styled line (sum of span widths, capped).
pub fn line_width(line: &Line) -> (w: u16)
    ensures
        w == cap16(spans_cols(line.spans@) as int),
{
    spans_width(line.spans.as_slice())
}

/// What the wrap solver knows of one grapheme cell.
#[derive(Clone, Copy, Debug, PartialEq, Eq, Structural)]
pub struct CellMetrics {
    pub cols: u16,
    pub is_break: bool,
}

/// Whether every character is whitespace.
pub open spec fn all_whitespace(g: Seq<char>) -> bool {
    forall|i: int| 0 <= i < g.len() ==> is_space(#[trigger] g[i])
}

/// Unicode `White_Space`.
pub open spec fn is_space(c: char) -> bool {
    c == ' ' || c == '\t' || c == '\n' || c == '\u{0B}' || c == '\u{0C}' || c == '\r' || c
        == '\u{85}' || c == '\u{A0}' || c == '\u{1680}' || ('\u{2000}' <= c && c <= '\u{200A}')
        || c == '\u{2028}' || c == '\u{2029}' || c == '\u{202F}' || c == '\u{205F}' || c
        == '\u{3000}'
}

fn char_is_space(c: char) -> (b: bool)
    ensures
        b == is_space(c),
{
    c == ' ' || c == '\t' || c == '\n' || c == '\u{0B}' || c == '\u{0C}' || c == '\r' || c
        == '\u{85}' || c == '\u{A0}' || c == '\u{1680}' || ('\u{2000}' <= c && c <= '\u{200A}')
        || c == '\u{2028}' || c == '\u{2029}' || c == '\u{202F}' || c == '\u{205F}' || c
        == '\u{3000}'
}

/// Whether a grapheme cluster is a break opportunity (all whitespace).
pub fn is_break(cluster: &str) -> (b: bool)
    ensures
        b == all_whitespace(cluster@),
{
    let cs = chars_of(cluster);
    let mut i: usize = 0;
    while i < cs.len()
        invariant
            i <= cs@.len(),
            cs@ == cluster@,
            forall|j: int| 0 <= j < i ==> is_space(#[trigger] cs@[j]),
        decreases cs@.len() - i,
    {
        if !char_is_space(cs[i]) {
            return false;
        }
        i = i + 1;
    }
    true
}

pub open spec fn metrics_of(g: Seq<char>) -> CellMetrics {
    CellMetrics { cols: cluster_cols(g) as u16, is_break: all_whitespace(g) }
}

impl CellMetrics {
    pub fn of(cluster: &str) -> (m: CellMetrics)
        ensures
            m == metrics_of(cluster@),
    {
        CellMetrics { cols: grapheme_cols(cluster), is_break: is_break(cluster) }
    }
}

/// `a + b` saturating at `u16::MAX`.
pub open spec fn sadd(a: int, b: int) -> int {
    if a + b > 65535 { 65535 } else { a + b }
}

/// End of the word starting at `i`: the first break cell at or after `i`.
pub open spec fn word_end(cells: Seq<CellMetrics>, i: int) -> int
    decreases cells.len() - i,
{
    if i >= cells.len() || i < 0 || cells[i].is_break {
        i
    } else {
        word_end(cells, i + 1)
    }
}

/// Columns of `cells[a..b]`, summed left to right with saturation.
pub open spec fn run_cols(cells: Seq<CellMetrics>, a: int, b: int) -> int
    decreases b - a,
{
    if b <= a {
        0
    } else {
        sadd(run_cols(cells, a, b - 1), cells[b - 1].cols as int)
    }
}

pub type Rows = Seq<Seq<(usize, usize)>>;

/// Hard-break the over-wide word `cells[start..end]`: walking cell by cell,
/// close the current row whenever the next cell would overflow it (a piece
/// always keeps at least one cell). Yields rows, current row, its width, and
/// where the unfinished piece starts.
pub open spec fn hard_break(
    cells: Seq<CellMetrics>,
    width: int,
    cell: int,
    end: int,
    rows: Rows,
    cur: Seq<(usize, usize)>,
    cur_w: int,
    piece: int,
) -> (Rows, Seq<(usize, usize)>, int, int)
    decreases end - cell,
{
    if cell >= end {
        (rows, cur, cur_w, piece)
    } else {
        let w = cells[cell].cols as int;
        if sadd(cur_w, w) > width && cell > piece {
            hard_break(
                cells,
                width,
                cell + 1,
                end,
                rows.push(cur.push((piece as usize, cell as usize))),
                seq![],
                sadd(0, w),
                cell,
            )
        } else {
            hard_break(cells, width, cell + 1, end, rows, cur, sadd(cur_w, w), piece)
        }
    }
}

/// The greedy wrap from cell `i`, given the rows so far, the current row and
/// its width.
pub open spec fn wrap_from(
    cells: Seq<CellMetrics>,
    width: int,
    i: int,
    rows: Rows,
    cur: Seq<(usize, usize)>,
    cur_w: int,
) -> Rows
    decreases cells.len() - i,
{
    if i >= cells.len() || i < 0 {
        let done = if cur.len() > 0 { rows.push(cur) } else { rows };
        if done.len() == 0 { seq![seq![]] } else { done }
    } else if cells[i].is_break {
        wrap_from(cells, width, i + 1, rows, cur, cur_w)
    } else {
        let j = word_end(cells, i);
        proof {
            lemma_word_end(cells, i);
        }
        let ww = run_cols(cells, i, j);
        let sep = if cur.len() > 0 { 1int } else { 0int };
        if j <= i {
            seq![]
        } else if ww <= width && sadd(sadd(cur_w, sep), ww) <= width {
            wrap_from(cells, width, j, rows, cur.push((i as usize, j as usize)), sadd(sadd(cur_w, sep), ww))
        } else if ww <= width {
            let rows2 = if cur.len() > 0 { rows.push(cur) } else { rows };
            wrap_from(cells, width, j, rows2, seq![(i as usize, j as usize)], ww)
        } else {
            let rows2 = if cur.len() > 0 { rows.push(cur) } else { rows };
            let cw2 = if cur.len() > 0 { 0 } else { cur_w };
            let cur2 = if cur.len() > 0 { seq![] } else { cur };
            let h = hard_break(cells, width, i, j, rows2, cur2, cw2, i);
            wrap_from(cells, width, j, h.0, h.1.push((h.3 as usize, j as usize)), h.2)
        }
    }
}

/// The rows the wrap solver produces for `cells` at `width`: each row the
/// index ranges of its words.
pub open spec fn wrap_spec(cells: Seq<CellMetrics>, width: int) -> Rows {
    wrap_from(cells, width, 0, seq![], seq![], 0)
}

pub proof fn lemma_word_end(cells: Seq<CellMetrics>, i: int)
    requires
        0 <= i <= cells.len(),
    ensures
        i <= word_end(cells, i) <= cells.len(),
        forall|k: int| i <= k < word_end(cells, i) ==> !(#[trigger] cells[k]).is_break,
        word_end(cells, i) < cells.len() ==> cells[word_end(cells, i)].is_break,
    decreases cells.len() - i,
{
    if !(i >= cells.len() || cells[i].is_break) {
        lemma_word_end(cells, i + 1);
    }
}

pub open spec fn row_views(v: Seq<Vec<(usize, usize)>>) -> Rows {
    v.map_values(|r: Vec<(usize, usize)>| r@)
}

/// The greedy word-wrap solver: each output row lists the cell ranges of its
/// words. Whitespace runs collapse to one break, a word wider than `width` is
/// hard-broken, and blank input yields one empty row.
pub fn wrap_cells(cells: &[CellMetrics], width: u16) -> (rows: Vec<Vec<(usize, usize)>>)
    ensures
        row_views(rows@) == wrap_spec(cells@, width as int),
{
    let n = cells.len();
    let mut rows: Vec<Vec<(usize, usize)>> = Vec::new();
    let mut cur: Vec<(usize, usize)> = Vec::new();
    let mut cur_w: u16 = 0;
    let mut i: usize = 0;
    let ghost target = wrap_spec(cells@, width as int);
    proof {
        assert(row_views(rows@) =~= Seq::<Seq<(usize, usize)>>::empty());
    }
    while i < n
        invariant
            i <= n,
            n == cells@.len(),
            wrap_from(cells@, width as int, i as int, row_views(rows@), cur@, cur_w as int) == target,
        decreases n - i,
    {
        if cells[i].is_break {
            i = i + 1;
            continue;
        }
        let start = i;
        let mut word_w: u16 = 0;
        proof {
            lemma_word_end(cells@, start as int);
        }
        while i < n && !cells[i].is_break
            invariant
                start <= i <= n,
                n == cells@.len(),
                word_end(cells@, start as int) == word_end(cells@, i as int),
                word_w == run_cols(cells@, start as int, i as int),
                forall|k: int| start <= k < i ==> !(#[trigger] cells@[k]).is_break,
            decreases n - i,
        {
            word_w = word_w.saturating_add(cells[i].cols);
            i = i + 1;
        }
        proof {
            lemma_word_end(cells@, start as int);
            assert(word_end(cells@, start as int) == i as int);
        }
        let ghost r0 = row_views(rows@);
        let sep: u16 = if cur.len() > 0 { 1 } else { 0 };
        if word_w <= width && cur_w.saturating_add(sep).saturating_add(word_w) <= width {
            cur.push((start, i));
            cur_w = cur_w.saturating_add(sep).saturating_add(word_w);
        } else if word_w <= width {
            if cur.len() > 0 {
                let done = cur;
                rows.push(done);
                proof {
                    assert(row_views(rows@) =~= r0.push(done@));
                }
            }
            cur = Vec::new();
            cur.push((start, i));
            cur_w = word_w;
        } else {
            if cur.len() > 0 {
                let done = cur;
                rows.push(done);
                proof {
                    assert(row_views(rows@) =~= r0.push(done@));
                }
                cur = Vec::new();
                cur_w = 0;
            }
            let mut piece = start;
            let mut cell = start;
            let ghost h = hard_break(cells@, width as int, start as int, i as int, row_views(rows@), cur@, cur_w as int, start as int);
            while cell < i
                invariant
                    start <= cell <= i,
                    start <= piece <= cell,
                    i <= n,
                    n == cells@.len(),
                    hard_break(cells@, width as int, cell as int, i as int, row_views(rows@), cur@, cur_w as int, piece as int) == h,
                decreases i - cell,
            {
                let w = cells[cell].cols;
                if cur_w.saturating_add(w) > width && cell > piece {
                    cur.push((piece, cell));
                    let ghost r1 = row_views(rows@);
                    let done = cur;
                    rows.push(done);
                    proof {
                        assert(row_views(rows@) =~= r1.push(done@));
                    }
                    cur = Vec::new();
                    piece = cell;
                    cur_w = 0;
                }
                cur_w = cur_w.saturating_add(w);
                cell = cell + 1;
            }
            cur.push((piece, i));
        }
    }
    let ghost r0 = row_views(rows@);
    if cur.len() > 0 {
        let done = cur;
        rows.push(done);
        proof {
            assert(row_views(rows@) =~= r0.push(done@));
        }
    }
    if rows.len() == 0 {
        rows.push(Vec::new());
        proof {
            assert(row_views(rows@) =~= seq![Seq::<(usize, usize)>::empty()]);
        }
    }
    rows
}

/// A styled grapheme cell, as a value.
pub type StyledCell = (Seq<char>, Style);

/// A line as values: its spans (text, style), base style and alignment.
pub open spec fn line_view(l: Line) -> (Seq<StyledCell>, Style, Option<Alignment>) {
    (l.spans@.map_values(|s: Span| (s.content@, s.style)), l.style, l.alignment)
}

/// The grapheme cells of some spans, each styled by `base` under its span.
pub open spec fn spans_cells(spans: Seq<Span>, base: Style) -> Seq<StyledCell>
    decreases spans.len(),
{
    if spans.len() == 0 {
        seq![]
    } else {
        spans_cells(spans.drop_last(), base) + grapheme_clusters(spans.last().content@).map_values(
            |g: Seq<char>| (g, base.spec_patch(spans.last().style)),
        )
    }
}

/// The cells of one wrapped row: its words in order, joined by a space that
/// takes the style of the cell before it.
pub open spec fn row_cells(cells: Seq<StyledCell>, row: Seq<(usize, usize)>) -> Seq<StyledCell>
    decreases row.len(),
{
    if row.len() == 0 {
        seq![]
    } else {
        let pre = row_cells(cells, row.drop_last());
        let joined = if pre.len() > 0 { pre.push((seq![' '], pre.last().1)) } else { pre };
        joined + cells.subrange(row.last().0 as int, row.last().1 as int)
    }
}

/// Adjacent cells of equal style merged into one span each.
pub open spec fn coalesce_spec(cs: Seq<StyledCell>) -> Seq<StyledCell>
    decreases cs.len(),
{
    if cs.len() == 0 {
        seq![]
    } else {
        let r = coalesce_spec(cs.drop_last());
        let c = cs.last();
        if r.len() > 0 && r.last().1 == c.1 {
            r.update(r.len() - 1, (r.last().0 + c.0, c.1))
        } else {
            r.push(c)
        }
    }
}

/// The rows one line wraps to at `width`.
pub open spec fn wrap_line_spec(l: Line, width: int) -> Seq<(Seq<StyledCell>, Style, Option<Alignment>)> {
    let cells = spans_cells(l.spans@, l.style);
    let rows = wrap_spec(cells.map_values(|c: StyledCell| metrics_of(c.0)), width);
    rows.map_values(|row: Seq<(usize, usize)>| (coalesce_spec(row_cells(cells, row)), Style::spec_empty(), l.alignment))
}

/// Every line's rows, in order.
pub open spec fn wrap_lines_spec(lines: Seq<Line>, width: int) -> Seq<(Seq<StyledCell>, Style, Option<Alignment>)>
    decreases lines.len(),
{
    if lines.len() == 0 {
        seq![]
    } else {
        wrap_lines_spec(lines.drop_last(), width) + wrap_line_spec(lines.last(), width)
    }
}

pub open spec fn lines_view(v: Seq<Line>) -> Seq<(Seq<StyledCell>, Style, Option<Alignment>)> {
    v.map_values(|l: Line| line_view(l))
}

pub open spec fn cells_view(v: Seq<(String, Style)>) -> Seq<StyledCell> {
    v.map_values(|c: (String, Style)| (c.0@, c.1))
}

/// Merge styled cells into a line, coalescing adjacent cells of equal style.
fn coalesce(cells: &Vec<(String, Style)>) -> (l: Line)
    ensures
        line_view(l) == (coalesce_spec(cells_view(cells@)), Style::spec_empty(), Option::<Alignment>::None),
{
    let mut spans: Vec<Span> = Vec::new();
    let mut buf = String::new();
    let mut run: Option<Style> = None;
    let mut i: usize = 0;
    while i < cells.len()
        invariant
            i <= cells@.len(),
            ({
                let sv = spans@.map_values(|s: Span| (s.content@, s.style));
                match run {
                    Some(st) => sv.push((buf@, st)) == coalesce_spec(cells_view(cells@).take(i as int)),
                    None => sv == coalesce_spec(cells_view(cells@).take(i as int)) && sv.len() == 0
                        && buf@.len() == 0,
                }
            }),
        decreases cells@.len() - i,
    {
        let ghost sv0 = spans@.map_values(|s: Span| (s.content@, s.style));
        proof {
            assert(cells_view(cells@).take(i as int + 1).drop_last() =~= cells_view(cells@).take(i as int));
            assert(cells_view(cells@).take(i as int + 1).last() == (cells@[i as int].0@, cells@[i as int].1));
        }
        let g = &cells[i].0;
        let st = cells[i].1;
        match run {
            Some(s) if s == st => {
                buf.append(g.as_str());
                proof {
                    let r = coalesce_spec(cells_view(cells@).take(i as int));
                    assert(sv0.push((buf@, st)) =~= r.update(r.len() - 1, (r.last().0 + g@, st)));
                }
            },
            _ => {
                if let Some(s) = run {
                    let done = Span { content: buf, style: s };
                    spans.push(done);
                    buf = String::new();
                }
                run = Some(st);
                proof {
                    assert(buf@.len() == 0);
                }
                buf.append(g.as_str());
                proof {
                    assert(buf@ =~= g@);
                    assert(spans@.map_values(|s: Span| (s.content@, s.style)) =~= coalesce_spec(cells_view(cells@).take(i as int)));
                    assert(spans@.map_values(|s: Span| (s.content@, s.style)).push((buf@, st)) =~= coalesce_spec(cells_view(cells@).take(i as int)).push((g@, st)));
                }
            },
        }
        i = i + 1;
    }
    if let Some(s) = run {
        let done = Span { content: buf, style: s };
        spans.push(done);
    }
    proof {
        assert(cells_view(cells@).take(cells@.len() as int) =~= cells_view(cells@));
        assert(spans@.map_values(|s: Span| (s.content@, s.style)) =~= coalesce_spec(cells_view(cells@)));
    }
    Line::from_spans(spans)
}

pub open spec fn row_ok(row: Seq<(usize, usize)>, n: int) -> bool {
    forall|k: int| 0 <= k < row.len() ==> (#[trigger] row[k]).0 <= row[k].1 <= n
}

pub open spec fn rows_ok(rows: Rows, n: int) -> bool {
    forall|r: int| 0 <= r < rows.len() ==> row_ok(#[trigger] rows[r], n)
}

pub proof fn lemma_hard_break_ok(
    cells: Seq<CellMetrics>,
    width: int,
    cell: int,
    end: int,
    rows: Rows,
    cur: Seq<(usize, usize)>,
    cur_w: int,
    piece: int,
)
    requires
        rows_ok(rows, cells.len() as int),
        row_ok(cur, cells.len() as int),
        0 <= piece <= cell <= end <= cells.len(),
        cells.len() <= usize::MAX,
    ensures
        ({
            let h = hard_break(cells, width, cell, end, rows, cur, cur_w, piece);
            rows_ok(h.0, cells.len() as int) && row_ok(h.1, cells.len() as int) && piece <= h.3 <= end
        }),
    decreases end - cell,
{
    if cell < end {
        let w = cells[cell].cols as int;
        if sadd(cur_w, w) > width && cell > piece {
            let cur2 = cur.push((piece as usize, cell as usize));
            assert(row_ok(cur2, cells.len() as int));
            let rows2 = rows.push(cur2);
            assert(rows_ok(rows2, cells.len() as int)) by {
                assert forall|r: int| 0 <= r < rows2.len() implies row_ok(#[trigger] rows2[r], cells.len() as int) by {
                    if r < rows.len() {
                        assert(rows2[r] == rows[r]);
                    }
                }
            }
            assert(row_ok(Seq::<(usize, usize)>::empty(), cells.len() as int));
            lemma_hard_break_ok(cells, width, cell + 1, end, rows2, seq![], sadd(0, w), cell);
        } else {
            lemma_hard_break_ok(cells, width, cell + 1, end, rows, cur, sadd(cur_w, w), piece);
        }
    }
}

pub proof fn lemma_push_row_ok(rows: Rows, cur: Seq<(usize, usize)>, n: int)
    requires
        rows_ok(rows, n),
        row_ok(cur, n),
    ensures
        rows_ok(rows.push(cur), n),
{
    let rows2 = rows.push(cur);
    assert forall|r: int| 0 <= r < rows2.len() implies row_ok(#[trigger] rows2[r], n) by {
        if r < rows.len() {
            assert(rows2[r] == rows[r]);
        }
    }
}

/// Every word range the solver produces lies within the cells.
pub proof fn lemma_wrap_from_ok(
    cells: Seq<CellMetrics>,
    width: int,
    i: int,
    rows: Rows,
    cur: Seq<(usize, usize)>,
    cur_w: int,
)
    requires
        rows_ok(rows, cells.len() as int),
        row_ok(cur, cells.len() as int),
        cells.len() <= usize::MAX,
    ensures
        rows_ok(wrap_from(cells, width, i, rows, cur, cur_w), cells.len() as int),
    decreases cells.len() - i,
{
    let n = cells.len() as int;
    if i >= cells.len() || i < 0 {
        if cur.len() > 0 {
            lemma_push_row_ok(rows, cur, n);
        }
        let empty: Seq<(usize, usize)> = seq![];
        assert(row_ok(empty, n));
        assert(rows_ok(seq![empty], n)) by {
            assert(seq![empty][0] == empty);
        }
    } else if cells[i].is_break {
        lemma_wrap_from_ok(cells, width, i + 1, rows, cur, cur_w);
    } else {
        let j = word_end(cells, i);
        lemma_word_end(cells, i);
        let ww = run_cols(cells, i, j);
        let sep = if cur.len() > 0 { 1int } else { 0int };
        if j <= i {
            assert(rows_ok(Seq::<Seq<(usize, usize)>>::empty(), n));
        } else if ww <= width && sadd(sadd(cur_w, sep), ww) <= width {
            assert(row_ok(cur.push((i as usize, j as usize)), n));
            lemma_wrap_from_ok(cells, width, j, rows, cur.push((i as usize, j as usize)), sadd(sadd(cur_w, sep), ww));
        } else if ww <= width {
            let rows2 = if cur.len() > 0 { rows.push(cur) } else { rows };
            if cur.len() > 0 {
                lemma_push_row_ok(rows, cur, n);
            }
            assert(row_ok(seq![(i as usize, j as usize)], n));
            lemma_wrap_from_ok(cells, width, j, rows2, seq![(i as usize, j as usize)], ww);
        } else {
            let rows2 = if cur.len() > 0 { rows.push(cur) } else { rows };
            if cur.len() > 0 {
                lemma_push_row_ok(rows, cur, n);
            }
            let cw2 = if cur.len() > 0 { 0 } else { cur_w };
            let cur2 = if cur.len() > 0 { seq![] } else { cur };
            assert(row_ok(cur2, n));
            lemma_hard_break_ok(cells, width, i, j, rows2, cur2, cw2, i);
            let h = hard_break(cells, width, i, j, rows2, cur2, cw2, i);
            assert(row_ok(h.1.push((h.3 as usize, j as usize)), n));
            lemma_wrap_from_ok(cells, width, j, h.0, h.1.push((h.3 as usize, j as usize)), h.2);
        }
    }
}

/// Each range of a row is non-empty and within `n`, and starts at or after
/// the end of the range before it.
pub open spec fn row_chain(row: Seq<(usize, usize)>, n: int) -> bool {
    &&& forall|k: int| 0 <= k < row.len() ==> (#[trigger] row[k]).0 < row[k].1 <= n
    &&& forall|k: int| 1 <= k < row.len() ==> row[k - 1].1 <= (#[trigger] row[k]).0
}

pub open spec fn rows_chain(rows: Rows, n: int) -> bool {
    forall|r: int| 0 <= r < rows.len() ==> row_chain(#[trigger] rows[r], n)
}

proof fn lemma_push_chain(rows: Rows, cur: Seq<(usize, usize)>, n: int)
    requires
        rows_chain(rows, n),
        row_chain(cur, n),
    ensures
        rows_chain(rows.push(cur), n),
{
    let rows2 = rows.push(cur);
    assert forall|r: int| 0 <= r < rows2.len() implies row_chain(#[trigger] rows2[r], n) by {
        if r < rows.len() {
            assert(rows2[r] == rows[r]);
        }
    }
}

proof fn lemma_single_chain(a: usize, b: usize, n: int)
    requires
        a < b <= n,
    ensures
        row_chain(seq![(a, b)], n),
{
    assert(seq![(a, b)][0] == (a, b));
}

proof fn lemma_extend_chain(cur: Seq<(usize, usize)>, a: usize, b: usize, n: int)
    requires
        row_chain(cur, n),
        a < b <= n,
        cur.len() > 0 ==> cur.last().1 <= a,
    ensures
        row_chain(cur.push((a, b)), n),
{
    let c2 = cur.push((a, b));
    assert forall|k: int| 0 <= k < c2.len() implies (#[trigger] c2[k]).0 < c2[k].1 <= n by {
        if k < cur.len() {
            assert(c2[k] == cur[k]);
        }
    }
    assert forall|k: int| 1 <= k < c2.len() implies c2[k - 1].1 <= (#[trigger] c2[k]).0 by {
        if k < cur.len() {
            assert(c2[k] == cur[k]);
            assert(c2[k - 1] == cur[k - 1]);
        } else {
            assert(c2[k - 1] == cur.last());
        }
    }
}

proof fn lemma_hard_break_chain(
    cells: Seq<CellMetrics>,
    width: int,
    cell: int,
    end: int,
    rows: Rows,
    cur_w: int,
    piece: int,
)
    requires
        rows_chain(rows, cells.len() as int),
        0 <= piece <= cell <= end <= cells.len(),
        piece < end,
        cells.len() <= usize::MAX,
    ensures
        ({
            let h = hard_break(cells, width, cell, end, rows, seq![], cur_w, piece);
            rows_chain(h.0, cells.len() as int) && h.1 == Seq::<(usize, usize)>::empty() && piece <= h.3 < end
        }),
    decreases end - cell,
{
    if cell < end {
        let w = cells[cell].cols as int;
        if sadd(cur_w, w) > width && cell > piece {
            let cur2 = Seq::<(usize, usize)>::empty().push((piece as usize, cell as usize));
            assert(cur2 == seq![(piece as usize, cell as usize)]);
            lemma_single_chain(piece as usize, cell as usize, cells.len() as int);
            lemma_push_chain(rows, cur2, cells.len() as int);
            lemma_hard_break_chain(cells, width, cell + 1, end, rows.push(cur2), sadd(0, w), cell);
        } else {
            lemma_hard_break_chain(cells, width, cell + 1, end, rows, sadd(cur_w, w), piece);
        }
    }
}

/// Within each row the solver produces, the word ranges are non-empty and in
/// order, each ending where the whitespace before the next begins.
pub proof fn lemma_wrap_chain(
    cells: Seq<CellMetrics>,
    width: int,
    i: int,
    rows: Rows,
    cur: Seq<(usize, usize)>,
    cur_w: int,
)
    requires
        rows_chain(rows, cells.len() as int),
        row_chain(cur, cells.len() as int),
        cur.len() > 0 ==> cur.last().1 <= i,
        cells.len() <= usize::MAX,
    ensures
        rows_chain(wrap_from(cells, width, i, rows, cur, cur_w), cells.len() as int),
    decreases cells.len() - i,
{
    let n = cells.len() as int;
    if i >= cells.len() || i < 0 {
        if cur.len() > 0 {
            lemma_push_chain(rows, cur, n);
        }
        let empty: Seq<(usize, usize)> = seq![];
        assert(row_chain(empty, n));
        assert(rows_chain(seq![empty], n)) by {
            assert(seq![empty][0] == empty);
        }
    } else if cells[i].is_break {
        lemma_wrap_chain(cells, width, i + 1, rows, cur, cur_w);
    } else {
        let j = word_end(cells, i);
        lemma_word_end(cells, i);
        let ww = run_cols(cells, i, j);
        let sep = if cur.len() > 0 { 1int } else { 0int };
        if j <= i {
            assert(rows_chain(Seq::<Seq<(usize, usize)>>::empty(), n));
        } else if ww <= width && sadd(sadd(cur_w, sep), ww) <= width {
            lemma_extend_chain(cur, i as usize, j as usize, n);
            lemma_wrap_chain(cells, width, j, rows, cur.push((i as usize, j as usize)), sadd(sadd(cur_w, sep), ww));
        } else if ww <= width {
            let rows2 = if cur.len() > 0 { rows.push(cur) } else { rows };
            if cur.len() > 0 {
                lemma_push_chain(rows, cur, n);
            }
            lemma_single_chain(i as usize, j as usize, n);
            lemma_wrap_chain(cells, width, j, rows2, seq![(i as usize, j as usize)], ww);
        } else {
            let rows2 = if cur.len() > 0 { rows.push(cur) } else { rows };
            if cur.len() > 0 {
                lemma_push_chain(rows, cur, n);
            }
            let cw2 = if cur.len() > 0 { 0 } else { cur_w };
            let cur2 = if cur.len() > 0 { seq![] } else { cur };
            assert(cur2 == Seq::<(usize, usize)>::empty());
            lemma_hard_break_chain(cells, width, i, j, rows2, cw2, i);
            let h = hard_break(cells, width, i, j, rows2, cur2, cw2, i);
            assert(h.1.push((h.3 as usize, j as usize)) == seq![(h.3 as usize, j as usize)]);
            lemma_single_chain(h.3 as usize, j as usize, n);
            lemma_wrap_chain(cells, width, j, h.0, h.1.push((h.3 as usize, j as usize)), h.2);
        }
    }
}

/// Word-wrap one line onto `out`, preserving span styles and the line's
/// alignment.
fn wrap_one(line: &Line, width: u16, out: &mut Vec<Line>)
    ensures
        lines_view(final(out)@) == lines_view(old(out)@) + wrap_line_spec(*line, width as int),
{
    let mut cells: Vec<(String, Style)> = Vec::new();
    let mut si: usize = 0;
    while si < line.spans.len()
        invariant
            si <= line.spans@.len(),
            cells_view(cells@) == spans_cells(line.spans@.take(si as int), line.style),
        decreases line.spans@.len() - si,
    {
        let span = &line.spans[si];
        let st = line.style.patch(span.style);
        let gs = graphemes(span.content.as_str());
        let ghost base = cells_view(cells@);
        let mut gi: usize = 0;
        while gi < gs.len()
            invariant
                gi <= gs@.len(),
                views(gs@) == grapheme_clusters(span.content@),
                cells_view(cells@) == base + grapheme_clusters(span.content@).take(gi as int).map_values(
                    |g: Seq<char>| (g, st),
                ),
            decreases gs@.len() - gi,
        {
            let ghost pre = cells_view(cells@);
            cells.push((gs[gi].clone(), st));
            proof {
                assert(cells_view(cells@) =~= pre.push((gs@[gi as int]@, st)));
                assert(grapheme_clusters(span.content@).take(gi as int + 1).map_values(|g: Seq<char>| (g, st))
                    =~= grapheme_clusters(span.content@).take(gi as int).map_values(|g: Seq<char>| (g, st)).push((gs@[gi as int]@, st)));
                assert(cells_view(cells@) =~= base + grapheme_clusters(span.content@).take(gi as int + 1).map_values(|g: Seq<char>| (g, st)));
            }
            gi = gi + 1;
        }
        proof {
            assert(grapheme_clusters(span.content@).take(gs@.len() as int) =~= grapheme_clusters(span.content@));
            assert(line.spans@.take(si as int + 1).drop_last() =~= line.spans@.take(si as int));
        }
        si = si + 1;
    }
    proof {
        assert(line.spans@.take(si as int) =~= line.spans@);
    }
    let ghost all = cells_view(cells@);
    let mut metrics: Vec<CellMetrics> = Vec::new();
    let mut k: usize = 0;
    while k < cells.len()
        invariant
            k <= cells@.len(),
            metrics@ == all.take(k as int).map_values(|c: StyledCell| metrics_of(c.0)),
            all == cells_view(cells@),
        decreases cells@.len() - k,
    {
        metrics.push(CellMetrics::of(cells[k].0.as_str()));
        proof {
            assert(all.take(k as int + 1).map_values(|c: StyledCell| metrics_of(c.0)) =~= all.take(k as int).map_values(|c: StyledCell| metrics_of(c.0)).push(metrics_of(cells@[k as int].0@)));
        }
        k = k + 1;
    }
    proof {
        assert(all.take(k as int) =~= all);
    }
    let rows = wrap_cells(metrics.as_slice(), width);
    proof {
        assert(row_views(Seq::<Vec<(usize, usize)>>::empty()) =~= Seq::<Seq<(usize, usize)>>::empty());
        lemma_wrap_from_ok(metrics@, width as int, 0, seq![], seq![], 0);
    }
    let ghost spec_rows = wrap_line_spec(*line, width as int);
    let ghost out0 = lines_view(out@);
    let mut r: usize = 0;
    while r < rows.len()
        invariant
            r <= rows@.len(),
            row_views(rows@) == wrap_spec(metrics@, width as int),
            rows_ok(row_views(rows@), cells@.len() as int),
            metrics@.len() == cells@.len(),
            all == cells_view(cells@),
            metrics@ == all.map_values(|c: StyledCell| metrics_of(c.0)),
            all == spans_cells(line.spans@, line.style),
            spec_rows == wrap_line_spec(*line, width as int),
            lines_view(out@) == out0 + spec_rows.take(r as int),
        decreases rows@.len() - r,
    {
        let row = &rows[r];
        proof {
            assert(row_views(rows@)[r as int] == row@);
            assert(row_ok(row@, cells@.len() as int));
        }
        let mut cur: Vec<(String, Style)> = Vec::new();
        let mut w: usize = 0;
        while w < row.len()
            invariant
                w <= row@.len(),
                row_ok(row@, cells@.len() as int),
                all == cells_view(cells@),
                cells_view(cur@) == row_cells(all, row@.take(w as int)),
            decreases row@.len() - w,
        {
            proof {
                assert(row@.take(w as int + 1).drop_last() =~= row@.take(w as int));
                assert(row@.take(w as int + 1).last() == row@[w as int]);
            }
            let (a, b) = row[w];
            let ghost pre = cells_view(cur@);
            if cur.len() > 0 {
                let prev = cur[cur.len() - 1].1;
                let mut sp = String::new();
                push_char(&mut sp, ' ');
                cur.push((sp, prev));
                proof {
                    assert(cells_view(cur@) =~= pre.push((seq![' '], pre.last().1)));
                }
            }
            let ghost joined = cells_view(cur@);
            let mut c = a;
            while c < b
                invariant
                    a <= c <= b,
                    b <= cells@.len(),
                    all == cells_view(cells@),
                    cells_view(cur@) == joined + all.subrange(a as int, c as int),
                decreases b - c,
            {
                let ghost pre = cells_view(cur@);
                cur.push((cells[c].0.clone(), cells[c].1));
                proof {
                    assert(cells_view(cur@) =~= pre.push(all[c as int]));
                    assert(all.subrange(a as int, c as int + 1) =~= all.subrange(a as int, c as int).push(all[c as int]));
                    assert(cells_view(cur@) =~= joined + all.subrange(a as int, c as int + 1));
                }
                c = c + 1;
            }
            w = w + 1;
        }
        proof {
            assert(row@.take(row@.len() as int) =~= row@);
        }
        let mut produced = coalesce(&cur);
        produced.alignment = line.alignment;
        let ghost pre_out = lines_view(out@);
        proof {
            assert(line_view(produced) == spec_rows[r as int]);
        }
        out.push(produced);
        proof {
            assert(lines_view(out@) =~= pre_out.push(spec_rows[r as int]));
            assert(spec_rows.take(r as int + 1) =~= spec_rows.take(r as int).push(spec_rows[r as int]));
            assert(lines_view(out@) =~= out0 + spec_rows.take(r as int + 1));
        }
        r = r + 1;
    }
    proof {
        assert(spec_rows.take(r as int) =~= spec_rows);
    }
}

/// Word-wrap pre-styled lines to `width` columns, keeping each span's style
/// and each line's alignment. Blank lines stay one blank row; a `width` of 0
/// returns the lines unchanged.
pub fn wrap_lines(lines: &[Line], width: u16) -> (out: Vec<Line>)
    ensures
        width == 0 ==> lines_view(out@) == lines_view(lines@),
        width > 0 ==> lines_view(out@) == wrap_lines_spec(lines@, width as int),
{
    let mut out: Vec<Line> = Vec::new();
    if width == 0 {
        let mut i: usize = 0;
        while i < lines.len()
            invariant
                i <= lines@.len(),
                lines_view(out@) == lines_view(lines@.take(i as int)),
            decreases lines@.len() - i,
        {
            let ghost pre_out = lines_view(out@);
            let cl = lines[i].clone();
            proof {
                assert(line_view(cl) =~= line_view(lines@[i as int]));
            }
            out.push(cl);
            proof {
                assert(lines_view(out@) =~= pre_out.push(line_view(lines@[i as int])));
                assert(lines_view(out@) =~= lines_view(lines@.take(i as int + 1)));
            }
            i = i + 1;
        }
        proof {
            assert(lines@.take(i as int) =~= lines@);
        }
        return out;
    }
    let mut i: usize = 0;
    proof {
        assert(lines_view(out@) =~= wrap_lines_spec(lines@.take(0), width as int));
    }
    while i < lines.len()
        invariant
            i <= lines@.len(),
            lines_view(out@) == wrap_lines_spec(lines@.take(i as int), width as int),
        decreases lines@.len() - i,
    {
        wrap_one(&lines[i], width, &mut out);
        proof {
            assert(lines@.take(i as int + 1).drop_last() =~= lines@.take(i as int));
        }
        i = i + 1;
    }
    proof {
        assert(lines@.take(i as int) =~= lines@);
    }
    out
}

/// What drawing `lines` top-down into `area` does: each line starts where its
/// alignment puts it and its spans are written in turn over the line style,
/// clipped to the surface.
pub open spec fn draw_lines_spec(barea: Rect, cells: Seq<CellView>, clip: Rect, lines: Seq<Line>, area: Rect, row: int) -> Seq<CellView>
    decreases lines.len() - row,
{
    if row >= lines.len() || row < 0 || sat_add(area.y as int, row) >= area.spec_bottom() {
        cells
    } else {
        let y = sat_add(area.y as int, row);
        let l = lines[row];
        let align = match l.alignment {
            Some(a) => a,
            None => Alignment::Left,
        };
        let x = spec_aligned_x(align, cap16(spans_cols(l.spans@) as int), area);
        let after = draw_spans_spec(barea, cells, clip, l.spans@, l.style, x, y, area, 0);
        draw_lines_spec(barea, after, clip, lines, area, row + 1)
    }
}

/// Spans written left to right from column `x` on row `y`, stopping once the
/// column reaches the area's right edge.
pub open spec fn draw_spans_spec(barea: Rect, cells: Seq<CellView>, clip: Rect, spans: Seq<Span>, line_style: Style, x: int, y: int, area: Rect, k: int) -> Seq<CellView>
    decreases spans.len() - k,
{
    if k >= spans.len() || k < 0 || x >= area.spec_right() {
        cells
    } else {
        let r = clipped_write(barea, cells, clip, x, y, spans[k].content@, line_style.spec_patch(spans[k].style));
        draw_spans_spec(barea, r.0, clip, spans, line_style, r.1, y, area, k + 1)
    }
}

/// Draw pre-styled lines top-down from `area`'s origin, each placed by its
/// alignment, clipped to `area`.
pub fn draw_lines(lines: &[Line], area: Rect, surface: &mut Surface)
    requires
        old(surface).wf(),
    ensures
        final(surface).wf(),
        final(surface).clip == old(surface).clip,
        final(surface).buffer.area == old(surface).buffer.area,
        final(surface).buffer.cells() == draw_lines_spec(
            old(surface).buffer.area,
            old(surface).buffer.cells(),
            old(surface).clip,
            lines@,
            area,
            0,
        ),
{
    let ghost barea = surface.buffer.area;
    let ghost clip = surface.clip;
    let ghost target = draw_lines_spec(barea, surface.buffer.cells(), clip, lines@, area, 0);
    let mut row: usize = 0;
    while row < lines.len()
        invariant_except_break
            row <= lines@.len(),
            surface.wf(),
            surface.buffer.area == barea,
            surface.clip == clip,
            draw_lines_spec(barea, surface.buffer.cells(), clip, lines@, area, row as int) == target,
        ensures
            surface.wf(),
            surface.buffer.area == barea,
            surface.clip == clip,
            surface.buffer.cells() == target,
        decreases lines@.len() - row,
    {
        let ry: u16 = if row < 65535 { row as u16 } else { 65535 };
        let y = area.y.saturating_add(ry);
        if y >= area.bottom() {
            break;
        }
        let line = &lines[row];
        let align = match line.alignment {
            Some(a) => a,
            None => Alignment::Left,
        };
        let mut x = aligned_x(align, line_width(line), area);
        let ghost after = draw_spans_spec(barea, surface.buffer.cells(), clip, line.spans@, line.style, x as int, y as int, area, 0);
        let mut k: usize = 0;
        while k < line.spans.len()
            invariant_except_break
                k <= line.spans@.len(),
                surface.wf(),
                surface.buffer.area == barea,
                surface.clip == clip,
                draw_spans_spec(barea, surface.buffer.cells(), clip, line.spans@, line.style, x as int, y as int, area, k as int) == after,
            ensures
                surface.wf(),
                surface.buffer.area == barea,
                surface.clip == clip,
                surface.buffer.cells() == after,
            decreases line.spans@.len() - k,
        {
            if x >= area.right() {
                break;
            }
            let span = &line.spans[k];
            x = surface.set_string(x, y, span.content.as_str(), line.style.patch(span.style));
            k = k + 1;
        }
        row = row + 1;
    }
}

/// Widest line of a list, by `line_width`.
pub open spec fn max_line_cols(lines: Seq<Line>) -> int
    decreases lines.len(),
{
    if lines.len() == 0 {
        0
    } else {
        let rest = max_line_cols(lines.drop_last());
        let w = cap16(spans_cols(lines.last().spans@) as int);
        if rest >= w { rest } else { w }
    }
}

fn max_width(lines: &[Line]) -> (w: u16)
    ensures
        w == max_line_cols(lines@),
{
    let mut w: u16 = 0;
    let mut i: usize = 0;
    while i < lines.len()
        invariant
            i <= lines@.len(),
            w == max_line_cols(lines@.take(i as int)),
        decreases lines@.len() - i,
    {
        proof {
            assert(lines@.take(i as int + 1).drop_last() =~= lines@.take(i as int));
        }
        let lw = line_width(&lines[i]);
        if lw > w {
            w = lw;
        }
        i = i + 1;
    }
    proof {
        assert(lines@.take(i as int) =~= lines@);
    }
    w
}

/// A block of pre-styled lines, drawn top-down, each placed by its own
/// alignment, clipped to the area.
pub struct Text {
    pub lines: Vec<Line>,
}

impl Text {
    /// A text block from pre-styled lines.
    pub fn new(lines: Vec<Line>) -> (t: Text)
        ensures
            t.lines == lines,
    {
        Text { lines }
    }

    /// A single unstyled line.
    pub fn raw(text: &str) -> (t: Text)
        ensures
            t.lines@.len() == 1,
            t.lines@[0].spans@.len() == 1,
            t.lines@[0].spans@[0].content@ == text@,
            t.lines@[0].spans@[0].style == Style::spec_empty(),
            t.lines@[0].style == Style::spec_empty(),
            t.lines@[0].alignment.is_none(),
    {
        let mut lines = Vec::new();
        lines.push(Line::raw(text));
        Text { lines }
    }
}

impl crate::view::View for Text {
    /// As wide as the widest line, one row per line.
    fn measure(&self, available: Size, ctx: &RenderCtx) -> (s: Size)
        ensures
            s.width == max_line_cols(self.lines@),
            s.height == self.lines@.len() % 65536,
    {
        Size::new(max_width(self.lines.as_slice()), (self.lines.len() % 65536) as u16)
    }

    fn render(&self, area: Rect, surface: &mut Surface, ctx: &RenderCtx)
        ensures
            final(surface).buffer.cells() == draw_lines_spec(
                old(surface).buffer.area,
                old(surface).buffer.cells(),
                old(surface).clip,
                self.lines@,
                area,
                0,
            ),
    {
        draw_lines(self.lines.as_slice(), area, surface);
    }
}

/// Pre-styled lines word-wrapped to the render width, span styles and line
/// alignment preserved.
pub struct Wrap {
    pub lines: Vec<Line>,
}

impl Wrap {
    /// A wrapping view over pre-styled lines.
    pub fn new(lines: Vec<Line>) -> (w: Wrap)
        ensures
            w.lines == lines,
    {
        Wrap { lines }
    }
}

impl crate::view::View for Wrap {
    /// The wrapped block's size: its widest row (capped to the width offered)
    /// by its row count.
    fn measure(&self, available: Size, ctx: &RenderCtx) -> (s: Size)
        ensures
            exists|out: Seq<Line>| {
                &&& (available.width == 0 ==> lines_view(out) == lines_view(self.lines@))
                &&& (available.width > 0 ==> lines_view(out) == wrap_lines_spec(self.lines@, available.width as int))
                &&& s.width == if max_line_cols(out) <= available.width { max_line_cols(out) } else { available.width as int }
                &&& s.height == out.len() % 65536
            },
    {
        let wrapped = wrap_lines(self.lines.as_slice(), available.width);
        let w = max_width(wrapped.as_slice());
        let width = if w <= available.width { w } else { available.width };
        Size::new(width, (wrapped.len() % 65536) as u16)
    }

    fn render(&self, area: Rect, surface: &mut Surface, ctx: &RenderCtx)
        ensures
            exists|out: Seq<Line>| {
                &&& (area.width == 0 ==> lines_view(out) == lines_view(self.lines@))
                &&& (area.width > 0 ==> lines_view(out) == wrap_lines_spec(self.lines@, area.width as int))
                &&& final(surface).buffer.cells() == draw_lines_spec(
                    old(surface).buffer.area,
                    old(surface).buffer.cells(),
                    old(surface).clip,
                    out,
                    area,
                    0,
                )
            },
    {
        let wrapped = wrap_lines(self.lines.as_slice(), area.width);
        draw_lines(wrapped.as_slice(), area, surface);
    }
}

/// Characters before cluster `k`.
pub open spec fn cluster_offset(gs: Seq<Seq<char>>, k: int) -> int
    decreases k,
{
    if k <= 0 || k > gs.len() {
        0
    } else {
        cluster_offset(gs, k - 1) + gs[k - 1].len()
    }
}

/// The text of one plain wrapped row: its words joined by single spaces.
pub open spec fn row_text(gs: Seq<Seq<char>>, row: Seq<(usize, usize)>) -> Seq<char>
    decreases row.len(),
{
    if row.len() == 0 {
        seq![]
    } else {
        let pre = row_text(gs, row.drop_last());
        let joined = if pre.len() > 0 { pre.push(' ') } else { pre };
        joined + gs.subrange(row.last().0 as int, row.last().1 as int).flatten()
    }
}

/// Where each word of a plain row sits: (offset in the row text, source
/// character range).
pub open spec fn row_words(gs: Seq<Seq<char>>, row: Seq<(usize, usize)>) -> Seq<(int, (int, int))>
    decreases row.len(),
{
    if row.len() == 0 {
        seq![]
    } else {
        let pre_text = row_text(gs, row.drop_last());
        let at = if pre_text.len() > 0 { pre_text.len() + 1 } else { 0 };
        row_words(gs, row.drop_last()).push(
            (at as int, (cluster_offset(gs, row.last().0 as int), cluster_offset(gs, row.last().1 as int))),
        )
    }
}

/// The rows plain text wraps to at `width`.
pub open spec fn wrap_str_rows(text: Seq<char>, width: int) -> Rows {
    wrap_spec(grapheme_clusters(text).map_values(|g: Seq<char>| metrics_of(g)), width)
}

/// One row of [`wrap_str`]: its text, and for each word its offset in the row
/// and the source character range it was copied from.
pub struct WrappedRow {
    pub text: String,
    pub words: Vec<(usize, (usize, usize))>,
}

/// Word-wrap plain text (no newlines) to `width` columns, on the same solver
/// as [`wrap_lines`].
pub fn wrap_str(text: &str, width: u16) -> (rows: Vec<WrappedRow>)
    ensures
        rows@.len() == wrap_str_rows(text@, width as int).len(),
        forall|r: int|
            0 <= r < rows@.len() ==> (#[trigger] rows@[r]).text@ == row_text(
                grapheme_clusters(text@),
                wrap_str_rows(text@, width as int)[r],
            ) && rows@[r].words@.map_values(|w: (usize, (usize, usize))| (w.0 as int, (w.1.0 as int, w.1.1 as int)))
                == row_words(grapheme_clusters(text@), wrap_str_rows(text@, width as int)[r]),
{
    let gs = graphemes(text);
    let ghost all = views(gs@);
    let mut metrics: Vec<CellMetrics> = Vec::new();
    let mut offsets: Vec<usize> = Vec::new();
    let mut off: usize = 0;
    let mut k: usize = 0;
    let total = text.unicode_len();
    proof {
        assert(all.flatten() == text@);
    }
    while k < gs.len()
        invariant
            k <= gs@.len(),
            all == views(gs@),
            all.flatten() == text@,
            metrics@ == all.take(k as int).map_values(|g: Seq<char>| metrics_of(g)),
            offsets@.len() == k,
            off == cluster_offset(all, k as int),
            total == text@.len(),
            forall|j: int| 0 <= j < k ==> offsets@[j] == cluster_offset(all, j),
        decreases gs@.len() - k,
    {
        metrics.push(CellMetrics::of(gs[k].as_str()));
        offsets.push(off);
        proof {
            assert(all.take(k as int + 1).map_values(|g: Seq<char>| metrics_of(g)) =~= all.take(k as int).map_values(|g: Seq<char>| metrics_of(g)).push(metrics_of(all[k as int])));
            lemma_offset_le_flatten(all, k as int + 1);
            vstd::seq_lib::lemma_flatten_concat(all.take(k as int + 1), all.skip(k as int + 1));
            assert(all.take(k as int + 1) + all.skip(k as int + 1) =~= all);
        }
        let glen = gs[k].as_str().unicode_len();
        off = off + glen;
        k = k + 1;
    }
    offsets.push(off);
    proof {
        assert(all.take(k as int) =~= all);
        lemma_wrap_from_ok(metrics@, width as int, 0, seq![], seq![], 0);
    }
    let rows = wrap_cells(metrics.as_slice(), width);
    let mut out: Vec<WrappedRow> = Vec::new();
    let mut r: usize = 0;
    while r < rows.len()
        invariant
            r <= rows@.len(),
            row_views(rows@) == wrap_str_rows(text@, width as int),
            rows_ok(row_views(rows@), gs@.len() as int),
            all == views(gs@),
            all == grapheme_clusters(text@),
            offsets@.len() == gs@.len() + 1,
            forall|j: int| 0 <= j <= gs@.len() ==> offsets@[j] == cluster_offset(all, j),
            out@.len() == r,
            forall|q: int|
                0 <= q < r ==> (#[trigger] out@[q]).text@ == row_text(all, row_views(rows@)[q])
                    && out@[q].words@.map_values(|w: (usize, (usize, usize))| (w.0 as int, (w.1.0 as int, w.1.1 as int)))
                    == row_words(all, row_views(rows@)[q]),
        decreases rows@.len() - r,
    {
        let row = &rows[r];
        proof {
            assert(row_views(rows@)[r as int] == row@);
            assert(row_ok(row@, gs@.len() as int));
        }
        let mut rtext = String::new();
        let mut words: Vec<(usize, (usize, usize))> = Vec::new();
        let mut rlen: usize = 0;
        let mut w: usize = 0;
        while w < row.len()
            invariant
                w <= row@.len(),
                row_ok(row@, gs@.len() as int),
                all == views(gs@),
                offsets@.len() == gs@.len() + 1,
                forall|j: int| 0 <= j <= gs@.len() ==> offsets@[j] == cluster_offset(all, j),
                rtext@ == row_text(all, row@.take(w as int)),
                rlen == rtext@.len(),
                words@.map_values(|x: (usize, (usize, usize))| (x.0 as int, (x.1.0 as int, x.1.1 as int))) == row_words(all, row@.take(w as int)),
            decreases row@.len() - w,
        {
            proof {
                assert(row@.take(w as int + 1).drop_last() =~= row@.take(w as int));
                assert(row@.take(w as int + 1).last() == row@[w as int]);
            }
            let (a, b) = row[w];
            if rlen > 0 {
                push_char(&mut rtext, ' ');
                rlen = rtext.as_str().unicode_len();
            }
            let ghost pre_words = words@.map_values(|x: (usize, (usize, usize))| (x.0 as int, (x.1.0 as int, x.1.1 as int)));
            words.push((rlen, (offsets[a], offsets[b])));
            proof {
                assert(words@.map_values(|x: (usize, (usize, usize))| (x.0 as int, (x.1.0 as int, x.1.1 as int))) =~= pre_words.push((rlen as int, (offsets@[a as int] as int, offsets@[b as int] as int))));
            }
            let ghost joined = rtext@;
            let mut c = a;
            while c < b
                invariant
                    a <= c <= b,
                    b <= gs@.len(),
                    all == views(gs@),
                    rtext@ == joined + all.subrange(a as int, c as int).flatten(),
                decreases b - c,
            {
                rtext.append(gs[c].as_str());
                proof {
                    assert(all.subrange(a as int, c as int + 1) =~= all.subrange(a as int, c as int).push(all[c as int]));
                    all.subrange(a as int, c as int).lemma_flatten_push(all[c as int]);
                    assert(rtext@ =~= joined + all.subrange(a as int, c as int + 1).flatten());
                }
                c = c + 1;
            }
            rlen = rtext.as_str().unicode_len();
            w = w + 1;
        }
        proof {
            assert(row@.take(row@.len() as int) =~= row@);
        }
        out.push(WrappedRow { text: rtext, words });
        r = r + 1;
    }
    out
}

pub proof fn lemma_offset_le_flatten(gs: Seq<Seq<char>>, k: int)
    requires
        0 <= k <= gs.len(),
    ensures
        cluster_offset(gs, k) == gs.take(k).flatten().len(),
    decreases k,
{
    if k > 0 {
        lemma_offset_le_flatten(gs, k - 1);
        assert(gs.take(k) =~= gs.take(k - 1).push(gs[k - 1]));
        gs.take(k - 1).lemma_flatten_push(gs[k - 1]);
    }
}

/// `s` split at each `'\n'` (as `str::split` does: n newlines give n + 1
/// pieces).
pub open spec fn split_newlines(s: Seq<char>) -> Seq<Seq<char>>
    decreases s.len(),
{
    if s.len() == 0 {
        seq![seq![]]
    } else {
        let r = split_newlines(s.drop_last());
        if s.last() == '\n' {
            r.push(seq![])
        } else {
            r.update(r.len() - 1, r.last().push(s.last()))
        }
    }
}

pub proof fn lemma_split_nonempty(s: Seq<char>)
    ensures
        split_newlines(s).len() >= 1,
    decreases s.len(),
{
    if s.len() > 0 {
        lemma_split_nonempty(s.drop_last());
    }
}

/// The wrapped row texts of a paragraph: each newline-separated piece wrapped
/// on its own; nothing at width 0.
pub open spec fn paragraph_rows(text: Seq<char>, width: int) -> Seq<Seq<char>> {
    if width == 0 {
        seq![]
    } else {
        split_newlines(text).map_values(
            |p: Seq<char>|
                wrap_str_rows(p, width).map_values(|row: Seq<(usize, usize)>| row_text(grapheme_clusters(p), row)),
        ).flatten()
    }
}

/// Split at newlines.
pub fn split_newlines_exec(text: &str) -> (parts: Vec<String>)
    ensures
        parts@.map_values(|p: String| p@) == split_newlines(text@),
{
    let cs = chars_of(text);
    let mut parts: Vec<String> = Vec::new();
    let mut cur = String::new();
    let mut i: usize = 0;
    while i < cs.len()
        invariant
            i <= cs@.len(),
            cs@ == text@,
            parts@.map_values(|p: String| p@).push(cur@) == split_newlines(cs@.take(i as int)),
        decreases cs@.len() - i,
    {
        proof {
            assert(cs@.take(i as int + 1).drop_last() =~= cs@.take(i as int));
            lemma_split_nonempty(cs@.take(i as int));
        }
        let ghost pv = parts@.map_values(|p: String| p@);
        if cs[i] == '\n' {
            let done = cur;
            parts.push(done);
            cur = String::new();
            proof {
                assert(parts@.map_values(|p: String| p@).push(cur@) =~= pv.push(done@).push(seq![]));
            }
        } else {
            push_char(&mut cur, cs[i]);
            proof {
                assert(parts@.map_values(|p: String| p@).push(cur@) =~= split_newlines(cs@.take(i as int + 1)));
            }
        }
        i = i + 1;
    }
    let ghost pv = parts@.map_values(|p: String| p@);
    let done = cur;
    parts.push(done);
    proof {
        assert(cs@.take(i as int) =~= cs@);
        assert(parts@.map_values(|p: String| p@) =~= pv.push(done@));
    }
    parts
}

/// Plain prose word-wrapped to the render width in one base style.
pub struct Paragraph {
    pub text: String,
    pub style: Style,
    pub align: Alignment,
}

impl Paragraph {
    /// A flush-left paragraph of `text` in `style`.
    pub fn new(text: &str, style: Style) -> (p: Paragraph)
        ensures
            p.text@ == text@,
            p.style == style,
            p.align == Alignment::Left,
    {
        Paragraph { text: text.to_owned(), style, align: Alignment::Left }
    }

    /// Align every wrapped row within the render width.
    pub fn alignment(self, align: Alignment) -> (p: Paragraph)
        ensures
            p.text == self.text,
            p.style == self.style,
            p.align == align,
    {
        Paragraph { align, ..self }
    }

    /// The wrapped rows at `width`.
    pub fn wrap(&self, width: u16) -> (rows: Vec<String>)
        ensures
            rows@.map_values(|r: String| r@) == paragraph_rows(self.text@, width as int),
    {
        let mut rows: Vec<String> = Vec::new();
        if width == 0 {
            proof {
                assert(rows@.map_values(|r: String| r@) =~= Seq::<Seq<char>>::empty());
            }
            return rows;
        }
        let parts = split_newlines_exec(self.text.as_str());
        let ghost pieces = split_newlines(self.text@);
        let ghost per = pieces.map_values(
            |p: Seq<char>|
                wrap_str_rows(p, width as int).map_values(|row: Seq<(usize, usize)>| row_text(grapheme_clusters(p), row)),
        );
        let mut k: usize = 0;
        while k < parts.len()
            invariant
                k <= parts@.len(),
                parts@.map_values(|p: String| p@) == pieces,
                per.len() == pieces.len(),
                per == pieces.map_values(
                    |p: Seq<char>|
                        wrap_str_rows(p, width as int).map_values(|row: Seq<(usize, usize)>| row_text(grapheme_clusters(p), row)),
                ),
                rows@.map_values(|r: String| r@) == per.take(k as int).flatten(),
            decreases parts@.len() - k,
        {
            let wrapped = wrap_str(parts[k].as_str(), width);
            let ghost base = rows@.map_values(|r: String| r@);
            let ghost piece = parts@[k as int]@;
            let mut j: usize = 0;
            while j < wrapped.len()
                invariant
                    j <= wrapped@.len(),
                    wrapped@.len() == wrap_str_rows(piece, width as int).len(),
                    forall|r: int|
                        0 <= r < wrapped@.len() ==> (#[trigger] wrapped@[r]).text@ == row_text(
                            grapheme_clusters(piece),
                            wrap_str_rows(piece, width as int)[r],
                        ),
                    rows@.map_values(|r: String| r@) == base + per[k as int].take(j as int),
                    per[k as int] == wrap_str_rows(piece, width as int).map_values(|row: Seq<(usize, usize)>| row_text(grapheme_clusters(piece), row)),
                decreases wrapped@.len() - j,
            {
                let t = wrapped[j].text.clone();
                let ghost pre = rows@.map_values(|r: String| r@);
                rows.push(t);
                proof {
                    assert(rows@.map_values(|r: String| r@) =~= pre.push(per[k as int][j as int]));
                    assert(per[k as int].take(j as int + 1) =~= per[k as int].take(j as int).push(per[k as int][j as int]));
                }
                j = j + 1;
            }
            proof {
                assert(per[k as int].take(j as int) =~= per[k as int]);
                assert(per.take(k as int + 1) =~= per.take(k as int).push(per[k as int]));
                per.take(k as int).lemma_flatten_push(per[k as int]);
            }
            k = k + 1;
        }
        proof {
            assert(per.take(k as int) =~= per);
        }
        rows
    }

    /// The rows as lines: each in the paragraph's style and alignment.
    pub open spec fn row_lines(&self, width: int) -> Seq<(Seq<char>, Style, Alignment)> {
        paragraph_rows(self.text@, width).map_values(|r: Seq<char>| (r, self.style, self.align))
    }
}

pub open spec fn plain_lines_view(v: Seq<Line>) -> Seq<(Seq<char>, Style, Alignment)> {
    v.map_values(|l: Line| (l.spans@[0].content@, l.spans@[0].style, l.alignment.unwrap()))
}

pub open spec fn plain_lines_ok(v: Seq<Line>) -> bool {
    forall|i: int| 0 <= i < v.len() ==> (#[trigger] v[i]).spans@.len() == 1 && v[i].style == Style::spec_empty() && v[i].alignment.is_some()
}

impl crate::view::View for Paragraph {
    /// Widest wrapped row by the number of rows.
    fn measure(&self, available: Size, ctx: &RenderCtx) -> (s: Size)
        ensures
            s.height == paragraph_rows(self.text@, available.width as int).len() % 65536,
            s.width == max_row_cols(paragraph_rows(self.text@, available.width as int)),
    {
        let rows = self.wrap(available.width);
        let mut w: u16 = 0;
        let mut i: usize = 0;
        while i < rows.len()
            invariant
                i <= rows@.len(),
                w == max_row_cols(rows@.map_values(|r: String| r@).take(i as int)),
            decreases rows@.len() - i,
        {
            proof {
                assert(rows@.map_values(|r: String| r@).take(i as int + 1).drop_last() =~= rows@.map_values(|r: String| r@).take(i as int));
            }
            let c = str_cols(rows[i].as_str());
            if c > w {
                w = c;
            }
            i = i + 1;
        }
        proof {
            assert(rows@.map_values(|r: String| r@).take(i as int) =~= rows@.map_values(|r: String| r@));
        }
        Size::new(w, (rows.len() % 65536) as u16)
    }

    /// Each wrapped row drawn like a one-span line in the paragraph's style and
    /// alignment.
    fn render(&self, area: Rect, surface: &mut Surface, ctx: &RenderCtx)
        ensures
            exists|lines: Seq<Line>| {
                &&& plain_lines_ok(lines)
                &&& plain_lines_view(lines) == self.row_lines(area.width as int)
                &&& final(surface).buffer.cells() == draw_lines_spec(
                    old(surface).buffer.area,
                    old(surface).buffer.cells(),
                    old(surface).clip,
                    lines,
                    area,
                    0,
                )
            },
    {
        let rows = self.wrap(area.width);
        let mut lines: Vec<Line> = Vec::new();
        let mut i: usize = 0;
        while i < rows.len()
            invariant
                i <= rows@.len(),
                rows@.map_values(|r: String| r@) == paragraph_rows(self.text@, area.width as int),
                plain_lines_ok(lines@),
                plain_lines_view(lines@) == self.row_lines(area.width as int).take(i as int),
            decreases rows@.len() - i,
        {
            let mut l = Line::styled(rows[i].as_str(), self.style);
            l.alignment = Some(self.align);
            let ghost pre = plain_lines_view(lines@);
            lines.push(l);
            proof {
                assert(plain_lines_view(lines@) =~= pre.push((rows@[i as int]@, self.style, self.align)));
                assert(self.row_lines(area.width as int).take(i as int + 1) =~= self.row_lines(area.width as int).take(i as int).push((rows@[i as int]@, self.style, self.align)));
            }
            i = i + 1;
        }
        proof {
            assert(self.row_lines(area.width as int).take(i as int) =~= self.row_lines(area.width as int));
        }
        draw_lines(lines.as_slice(), area, surface);
    }
}

/// Widest of some texts, in columns.
pub open spec fn max_row_cols(rows: Seq<Seq<char>>) -> int
    decreases rows.len(),
{
    if rows.len() == 0 {
        0
    } else {
        let rest = max_row_cols(rows.drop_last());
        let w = cap16(text_cols(rows.last()) as int);
        if rest >= w { rest } else { w }
    }
}

} // verus!
