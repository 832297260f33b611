//! An equal-column, row-major grid: exact track rounding, intrinsic row
//! heights, gaps and padding (no spanning, no implicit tracks).

use vstd::prelude::*;
use vstd::arithmetic::div_mod::{lemma_div_is_ordered, lemma_fundamental_div_mod, lemma_fundamental_div_mod_converse};
use vstd::arithmetic::mul::{lemma_mul_inequality, lemma_mul_is_distributive_add};
use crate::geometry::{Padding, Rect, Size, max, min, sat_add, sat_sub};
use crate::surface::Surface;
use crate::view::RenderCtx;

verus! {

/// `a * b`, saturating at `u16::MAX`.
pub open spec fn sat_mul(a: int, b: int) -> int {
    if a * b > 65535 {
        65535
    } else {
        a * b
    }
}

/// Rows needed for `n` cells in `cols` columns.
pub open spec fn row_count(n: int, cols: int) -> int {
    n / cols + if n % cols == 0 {
        0int
    } else {
        1int
    }
}

/// Width left for the tracks once the gaps between `cols` columns are taken
/// out of `inner`.
pub open spec fn track_space(inner: Rect, cols: int, col_gap: int) -> int {
    sat_sub(inner.width as int, sat_mul(col_gap, cols - 1))
}

/// Where track `c` starts within the track space: boundaries are rounded
/// down, so the tracks tile the space exactly.
pub open spec fn track_start(space: int, c: int, cols: int) -> int {
    space * c / cols
}

/// The width of track `c`.
pub open spec fn track_width(space: int, c: int, cols: int) -> int {
    track_start(space, c + 1, cols) - track_start(space, c, cols)
}

/// The top of row `r`: each earlier row's height and the row gap, saturating.
pub open spec fn row_top(top: int, heights: Seq<u16>, row_gap: int, r: int) -> int
    decreases r,
{
    if r <= 0 {
        top
    } else {
        sat_add(sat_add(row_top(top, heights, row_gap, r - 1), heights[r - 1] as int), row_gap)
    }
}

/// The rectangle of cell `i` in `inner`, with rows `heights` tall: its
/// track's column range shifted right by the gaps before it, its row's top,
/// all clamped to `inner`'s far edges.
pub open spec fn cell_rect(inner: Rect, cols: int, col_gap: int, row_gap: int, heights: Seq<u16>, i: int) -> Rect {
    let r = i / cols;
    let c = i % cols;
    let space = track_space(inner, cols, col_gap);
    let x = sat_add(sat_add(inner.x as int, track_start(space, c, cols)), sat_mul(col_gap, c));
    let y = row_top(inner.y as int, heights, row_gap, r);
    Rect {
        x: min(x, inner.spec_right()) as u16,
        y: min(y, inner.spec_bottom()) as u16,
        width: track_width(space, c, cols) as u16,
        height: min(heights[r] as int, sat_sub(inner.spec_bottom(), y)) as u16,
    }
}

/// The far edge of a set of cells: the largest of `edge` over them, or
/// `empty` when there are none.
pub open spec fn far_edge(rects: Seq<Rect>, right: bool, empty: int) -> int
    decreases rects.len(),
{
    if rects.len() == 0 {
        empty
    } else {
        let e = if right {
            rects.last().spec_right()
        } else {
            rects.last().spec_bottom()
        };
        let rest = far_edge(rects.drop_last(), right, empty);
        if rects.len() == 1 {
            e
        } else {
            max(rest, e)
        }
    }
}

/// What a grid laid out as `rects` asks for: its cells' far right and
/// bottom edges (the leading padding when there are no cells) plus the
/// trailing padding, each clamped to what is available.
pub open spec fn grid_size(rects: Seq<Rect>, pad: Padding, available: Size) -> Size {
    Size {
        width: min(sat_add(far_edge(rects, true, pad.left as int), pad.right as int), available.width as int) as u16,
        height: min(sat_add(far_edge(rects, false, pad.top as int), pad.bottom as int), available.height as int) as u16,
    }
}

fn sat_mul_u16(a: u16, b: u16) -> (r: u16)
    ensures
        r == sat_mul(a as int, b as int),
{
    assert((a as u32) * (b as u32) <= 65535 * 65535) by (nonlinear_arith)
        requires
            a <= 65535,
            b <= 65535,
    ;
    let p = (a as u32) * (b as u32);
    if p > 65535 {
        65535
    } else {
        p as u16
    }
}

proof fn lemma_track(space: int, c: int, cols: int)
    requires
        0 <= space <= 65535,
        0 <= c < cols,
    ensures
        0 <= track_start(space, c, cols) <= track_start(space, c + 1, cols) <= space,
{
    lemma_mul_inequality(c, c + 1, space);
    lemma_mul_inequality(c + 1, cols, space);
    assert(space * c >= 0) by (nonlinear_arith)
        requires
            space >= 0,
            c >= 0,
    ;
    assert(c * space == space * c && (c + 1) * space == space * (c + 1) && cols * space == space * cols) by (nonlinear_arith);
    lemma_div_is_ordered(space * c, space * (c + 1), cols);
    lemma_div_is_ordered(space * (c + 1), space * cols, cols);
    assert(space * cols / cols == space) by (nonlinear_arith)
        requires
            cols > 0,
    ;
    assert(space * c / cols >= 0) by (nonlinear_arith)
        requires
            cols > 0,
            space * c >= 0,
    ;
}

proof fn lemma_cell_index(i: int, r: int, c: int, cols: int)
    requires
        0 <= c < cols,
        i == r * cols + c,
    ensures
        i / cols == r,
        i % cols == c,
{
    assert(i == cols * r + c) by (nonlinear_arith)
        requires
            i == r * cols + c,
    ;
    lemma_fundamental_div_mod_converse(i, cols, r, c);
}

proof fn lemma_row_bound(n: int, r: int, c: int, cols: int)
    requires
        0 <= c < cols,
        0 <= r,
        r * cols + c < n,
    ensures
        r < row_count(n, cols),
{
    lemma_fundamental_div_mod(n, cols);
    if r >= row_count(n, cols) {
        assert(r * cols >= row_count(n, cols) * cols) by (nonlinear_arith)
            requires
                r >= row_count(n, cols),
                cols > 0,
        ;
        assert(row_count(n, cols) * cols >= n) by (nonlinear_arith)
            requires
                n == cols * (n / cols) + n % cols,
                0 <= n % cols < cols,
                row_count(n, cols) == n / cols + if n % cols == 0 {
                    0int
                } else {
                    1int
                },
        ;
    }
}

proof fn lemma_rows(n: int, c: int, k: int)
    requires
        c > 0,
        k >= 1,
        (k - 1) * c < n <= k * c,
    ensures
        row_count(n, c) == k,
{
    lemma_fundamental_div_mod(n, c);
    let q = n / c;
    let r = n % c;
    assert(q == k || q == k - 1) by (nonlinear_arith)
        requires
            n == c * q + r,
            0 <= r < c,
            (k - 1) * c < n <= k * c,
    ;
    if r == 0 {
        assert(q == k) by (nonlinear_arith)
            requires
                n == c * q,
                (k - 1) * c < n,
                q == k || q == k - 1,
        ;
    } else {
        assert(q == k - 1) by (nonlinear_arith)
            requires
                n == c * q + r,
                0 < r < c,
                n <= k * c,
                q == k || q == k - 1,
        ;
    }
}

proof fn lemma_div_split(a: int, s: int, n: int)
    requires
        a >= 0,
        s >= 0,
        n > 0,
    ensures
        s / n <= (a + s) / n - a / n <= s / n + 1,
{
    lemma_fundamental_div_mod(a, n);
    lemma_fundamental_div_mod(s, n);
    let qa = a / n;
    let ra = a % n;
    let qs = s / n;
    let rs = s % n;
    if ra + rs < n {
        assert(a + s == (qa + qs) * n + (ra + rs)) by (nonlinear_arith)
            requires
                a == n * qa + ra,
                s == n * qs + rs,
        ;
        lemma_fundamental_div_mod_converse(a + s, n, qa + qs, ra + rs);
    } else {
        assert(a + s == (qa + qs + 1) * n + (ra + rs - n)) by (nonlinear_arith)
            requires
                a == n * qa + ra,
                s == n * qs + rs,
        ;
        lemma_fundamental_div_mod_converse(a + s, n, qa + qs + 1, ra + rs - n);
    }
}

/// The column tracks tile the track space exactly: the first starts at its
/// left edge, each ends where the next starts, the last ends at its right
/// edge, and no two widths differ by more than one cell.
pub proof fn lemma_tracks_tile(space: int, cols: int, c: int, d: int)
    requires
        0 <= space <= 65535,
        cols >= 1,
        0 <= c < cols,
        0 <= d < cols,
    ensures
        track_start(space, 0, cols) == 0,
        track_start(space, cols, cols) == space,
        track_start(space, c, cols) + track_width(space, c, cols) == track_start(space, c + 1, cols),
        track_width(space, c, cols) - track_width(space, d, cols) <= 1,
{
    assert(space * 0 == 0);
    assert(space * cols == cols * space) by (nonlinear_arith);
    lemma_fundamental_div_mod_converse(space * cols, cols, space, 0);
    lemma_fundamental_div_mod_converse(0, cols, 0, 0);
    assert(space * (c + 1) == space * c + space && space * (d + 1) == space * d + space) by (nonlinear_arith);
    assert(space * c >= 0 && space * d >= 0) by (nonlinear_arith)
        requires
            space >= 0,
            c >= 0,
            d >= 0,
    ;
    lemma_div_split(space * c, space, cols);
    lemma_div_split(space * d, space, cols);
}

/// A row-major grid of `columns` equal-width columns.
pub struct Grid<V: crate::view::View> {
    columns: u16,
    row_gap: u16,
    column_gap: u16,
    padding: Padding,
    children: Vec<V>,
}

impl<V: crate::view::View> Grid<V> {
    #[verifier::type_invariant]
    spec fn has_columns(self) -> bool {
        self.columns >= 1
    }

    pub closed spec fn spec_columns(self) -> int {
        self.columns as int
    }

    pub closed spec fn spec_row_gap(self) -> int {
        self.row_gap as int
    }

    pub closed spec fn spec_column_gap(self) -> int {
        self.column_gap as int
    }

    pub closed spec fn spec_padding(self) -> Padding {
        self.padding
    }

    pub closed spec fn spec_children(self) -> Seq<V> {
        self.children@
    }

    /// The rectangle of cell `i` when the grid is laid out in `area` with
    /// rows `heights` tall.
    pub open spec fn spec_cell(self, area: Rect, heights: Seq<u16>, i: int) -> Rect {
        cell_rect(
            self.spec_padding().spec_inner(area),
            self.spec_columns(),
            self.spec_column_gap(),
            self.spec_row_gap(),
            heights,
            i,
        )
    }

    /// The layout in `area` with rows `heights` tall: one rectangle per cell.
    pub open spec fn spec_layout(self, area: Rect, heights: Seq<u16>, rects: Seq<Rect>) -> bool {
        &&& heights.len() == row_count(self.spec_children().len() as int, self.spec_columns())
        &&& rects.len() == self.spec_children().len()
        &&& forall|i: int| 0 <= i < rects.len() ==> #[trigger] rects[i] == self.spec_cell(area, heights, i)
    }

    /// An empty grid of `columns` columns (at least one), no gaps or padding.
    pub fn new(columns: u16) -> (g: Grid<V>)
        ensures
            g.spec_columns() == if columns >= 1 {
                columns as int
            } else {
                1
            },
            g.spec_row_gap() == 0,
            g.spec_column_gap() == 0,
            g.spec_padding() == (Padding { top: 0, right: 0, bottom: 0, left: 0 }),
            g.spec_children().len() == 0,
    {
        Grid {
            columns: if columns >= 1 {
                columns
            } else {
                1
            },
            row_gap: 0,
            column_gap: 0,
            padding: Padding::zero(),
            children: Vec::new(),
        }
    }

    /// Set both the row and the column gap.
    pub fn gap(self, gap: u16) -> (g: Grid<V>)
        ensures
            g.spec_row_gap() == gap,
            g.spec_column_gap() == gap,
            g.spec_columns() == self.spec_columns(),
            g.spec_padding() == self.spec_padding(),
            g.spec_children() == self.spec_children(),
    {
        proof {
            use_type_invariant(&self);
        }
        Grid { row_gap: gap, column_gap: gap, ..self }
    }

    /// Set the gap between rows.
    pub fn row_gap(self, gap: u16) -> (g: Grid<V>)
        ensures
            g.spec_row_gap() == gap,
            g.spec_column_gap() == self.spec_column_gap(),
            g.spec_columns() == self.spec_columns(),
            g.spec_padding() == self.spec_padding(),
            g.spec_children() == self.spec_children(),
    {
        proof {
            use_type_invariant(&self);
        }
        Grid { row_gap: gap, ..self }
    }

    /// Set the gap between columns.
    pub fn column_gap(self, gap: u16) -> (g: Grid<V>)
        ensures
            g.spec_column_gap() == gap,
            g.spec_row_gap() == self.spec_row_gap(),
            g.spec_columns() == self.spec_columns(),
            g.spec_padding() == self.spec_padding(),
            g.spec_children() == self.spec_children(),
    {
        proof {
            use_type_invariant(&self);
        }
        Grid { column_gap: gap, ..self }
    }

    /// Set the inner padding.
    pub fn padding(self, padding: Padding) -> (g: Grid<V>)
        ensures
            g.spec_padding() == padding,
            g.spec_row_gap() == self.spec_row_gap(),
            g.spec_column_gap() == self.spec_column_gap(),
            g.spec_columns() == self.spec_columns(),
            g.spec_children() == self.spec_children(),
    {
        proof {
            use_type_invariant(&self);
        }
        Grid { padding, ..self }
    }

    /// Append a cell in row-major order.
    pub fn cell(self, view: V) -> (g: Grid<V>)
        ensures
            g.spec_children() == self.spec_children().push(view),
            g.spec_padding() == self.spec_padding(),
            g.spec_row_gap() == self.spec_row_gap(),
            g.spec_column_gap() == self.spec_column_gap(),
            g.spec_columns() == self.spec_columns(),
    {
        proof {
            use_type_invariant(&self);
        }
        let Grid { columns, row_gap, column_gap, padding, children } = self;
        let mut children = children;
        children.push(view);
        Grid { columns, row_gap, column_gap, padding, children }
    }

    /// Track `c`'s start and width within `space`.
    fn track(&self, space: u16, c: u16) -> (r: (u16, u16))
        requires
            c < self.spec_columns(),
        ensures
            r.0 == track_start(space as int, c as int, self.spec_columns()),
            r.1 == track_width(space as int, c as int, self.spec_columns()),
    {
        proof {
            use_type_invariant(self);
            lemma_track(space as int, c as int, self.columns as int);
        }
        assert((space as u32) * ((c + 1) as u32) <= 65535 * 65535) by (nonlinear_arith)
            requires
                space <= 65535,
                c + 1 <= 65535,
        ;
        assert((space as u32) * (c as u32) <= (space as u32) * ((c + 1) as u32)) by (nonlinear_arith);
        let start = (space as u32) * (c as u32) / (self.columns as u32);
        let end = (space as u32) * ((c + 1) as u32) / (self.columns as u32);
        (start as u16, (end - start) as u16)
    }

    /// The cells laid out in `area` with rows `heights` tall.
    pub fn place(&self, area: Rect, heights: &[u16]) -> (rects: Vec<Rect>)
        requires
            heights@.len() == row_count(self.spec_children().len() as int, self.spec_columns()),
        ensures
            self.spec_layout(area, heights@, rects@),
    {
        proof {
            use_type_invariant(self);
        }
        let inner = self.padding.inner(area);
        let cols = self.columns;
        let gaps = sat_mul_u16(self.column_gap, cols - 1);
        let space = inner.width.saturating_sub(gaps);
        let n = self.children.len();
        let right = inner.right();
        let bottom = inner.bottom();
        let mut rects: Vec<Rect> = Vec::new();
        let mut i: usize = 0;
        let mut row: usize = 0;
        let mut col: u16 = 0;
        let mut y: u16 = inner.y;
        while i < n
            invariant
                self.spec_columns() == cols,
                cols >= 1,
                n == self.spec_children().len(),
                heights@.len() == row_count(n as int, cols as int),
                inner == self.spec_padding().spec_inner(area),
                space == track_space(inner, cols as int, self.spec_column_gap()),
                right == inner.spec_right(),
                bottom == inner.spec_bottom(),
                i <= n,
                col < cols,
                i == row * cols + col,
                y == row_top(inner.y as int, heights@, self.spec_row_gap(), row as int),
                rects@.len() == i,
                forall|j: int| 0 <= j < i ==> #[trigger] rects@[j] == self.spec_cell(area, heights@, j),
            decreases n - i,
        {
            proof {
                lemma_cell_index(i as int, row as int, col as int, cols as int);
                lemma_row_bound(n as int, row as int, col as int, cols as int);
            }
            let (start, width) = self.track(space, col);
            let x = inner.x.saturating_add(start).saturating_add(sat_mul_u16(self.column_gap, col));
            let h = heights[row];
            let avail = bottom.saturating_sub(y);
            let rect = Rect::new(
                if x < right {
                    x
                } else {
                    right
                },
                if y < bottom {
                    y
                } else {
                    bottom
                },
                width,
                if h < avail {
                    h
                } else {
                    avail
                },
            );
            rects.push(rect);
            i = i + 1;
            col = col + 1;
            if col == cols {
                proof {
                    assert((row + 1) * cols == row * cols + cols) by (nonlinear_arith);
                }
                col = 0;
                y = y.saturating_add(h).saturating_add(self.row_gap);
                row = row + 1;
            }
        }
        rects
    }

    /// One rectangle per cell in `area`: each row as tall as the tallest of
    /// its cells measured at its track's width.
    pub fn solve(&self, area: Rect, ctx: &RenderCtx) -> (rects: Vec<Rect>)
        ensures
            exists|heights: Seq<u16>| self.spec_layout(area, heights, rects@),
            rects@.len() == self.spec_children().len(),
    {
        proof {
            use_type_invariant(self);
        }
        let inner = self.padding.inner(area);
        let cols = self.columns;
        let gaps = sat_mul_u16(self.column_gap, cols - 1);
        let space = inner.width.saturating_sub(gaps);
        let n = self.children.len();
        let mut heights: Vec<u16> = Vec::new();
        let mut i: usize = 0;
        assert(0 * cols == 0);
        while i < n
            invariant
                self.spec_columns() == cols,
                cols >= 1,
                n == self.spec_children().len(),
                i <= n,
                i < n ==> i == heights@.len() * cols,
                heights@.len() == 0 ==> i == 0,
                heights@.len() > 0 ==> (heights@.len() - 1) * cols < i <= heights@.len() * cols,
            decreases n - i,
        {
            let ghost k = heights@.len() as int;
            let mut tallest: u16 = 0;
            let mut col: u16 = 0;
            while col < cols && i < n
                invariant
                    self.spec_columns() == cols,
                    n == self.spec_children().len(),
                    col <= cols,
                    i <= n,
                    i == k * cols + col,
                decreases cols - col,
            {
                let (_, width) = self.track(space, col);
                let measured = self.children[i].measure(Size::new(width, inner.height), ctx);
                if measured.height > tallest {
                    tallest = measured.height;
                }
                i = i + 1;
                col = col + 1;
            }
            heights.push(tallest);
            proof {
                assert(col > 0);
                assert((k + 1) * cols == k * cols + cols) by (nonlinear_arith);
            }
        }
        proof {
            if n > 0 {
                lemma_rows(n as int, cols as int, heights@.len() as int);
            } else {
                assert(row_count(0, cols as int) == 0) by {
                    assert(0 == 0 * (cols as int) + 0);
                    lemma_fundamental_div_mod_converse(0, cols as int, 0, 0);
                }
            }
        }
        self.place(area, heights.as_slice())
    }
}

/// The far right (`right`) or bottom edge of `rects`, `empty` when there are
/// none.
fn far_edge_of(rects: &Vec<Rect>, right: bool, empty: u16) -> (e: u16)
    ensures
        e == far_edge(rects@, right, empty as int),
{
    let mut e: u16 = empty;
    let mut i: usize = 0;
    while i < rects.len()
        invariant
            i <= rects@.len(),
            e == far_edge(rects@.take(i as int), right, empty as int),
        decreases rects@.len() - i,
    {
        let edge = if right {
            rects[i].right()
        } else {
            rects[i].bottom()
        };
        proof {
            assert(rects@.take(i + 1).drop_last() =~= rects@.take(i as int));
        }
        e = if i == 0 || edge > e {
            edge
        } else {
            e
        };
        i = i + 1;
    }
    proof {
        assert(rects@.take(rects@.len() as int) =~= rects@);
    }
    e
}

impl<V: crate::view::View> crate::view::View for Grid<V> {
    /// The extent of the cells laid out in the available space, padded and
    /// clamped to it.
    fn measure(&self, available: Size, ctx: &RenderCtx) -> (s: Size)
        ensures
            exists|heights: Seq<u16>, rects: Seq<Rect>|
                #![trigger self.spec_layout(Rect { x: 0, y: 0, width: available.width, height: available.height }, heights, rects)]
                self.spec_layout(Rect { x: 0, y: 0, width: available.width, height: available.height }, heights, rects)
                    && s == grid_size(rects, self.spec_padding(), available),
    {
        let rects = self.solve(Rect::new(0, 0, available.width, available.height), ctx);
        let w = far_edge_of(&rects, true, self.padding.left).saturating_add(self.padding.right);
        let h = far_edge_of(&rects, false, self.padding.top).saturating_add(self.padding.bottom);
        Size::new(
            if w < available.width {
                w
            } else {
                available.width
            },
            if h < available.height {
                h
            } else {
                available.height
            },
        )
    }

    /// Each cell drawn in its rectangle, clipped to it.
    fn render(&self, area: Rect, surface: &mut Surface, ctx: &RenderCtx) {
        let rects = self.solve(area, ctx);
        let mut i: usize = 0;
        while i < rects.len()
            invariant
                surface.wf(),
                surface.buffer.area == old(surface).buffer.area,
                surface.clip == old(surface).clip,
                rects@.len() == self.spec_children().len(),
            decreases rects@.len() - i,
        {
            let prev = surface.narrow(rects[i]);
            self.children[i].render(rects[i], surface, ctx);
            surface.restore_clip(prev);
            i = i + 1;
        }
    }
}

} // verus!
