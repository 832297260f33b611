//! A drawing surface: a buffer plus the clip rectangle writes are confined to.

use vstd::prelude::*;
use crate::buffer::{Buffer, CellView, restyled, styled, with_symbol, write_clusters, blank_cell, flat_index, lemma_pos_of_flat, lemma_flat_index_bounds};
use crate::style::BorderGlyphs;
use crate::geometry::{Position, Rect, sat_add, sat_sub};
use crate::graphemes::grapheme_clusters;
use crate::style::Style;

verus! {

/// A buffer and the rectangle drawing is clipped to.
#[derive(Debug)]
pub struct Surface {
    pub buffer: Buffer,
    pub clip: Rect,
}

/// What a clipped string write does to the cells, and the column it returns.
pub open spec fn clipped_write(
    area: Rect,
    cells: Seq<CellView>,
    clip: Rect,
    x: int,
    y: int,
    s: Seq<char>,
    style: Style,
) -> (Seq<CellView>, int) {
    if clip.y <= y < clip.spec_bottom() && clip.x <= x < clip.spec_right() {
        let r = write_clusters(
            area,
            cells,
            grapheme_clusters(s),
            x,
            0,
            clip.spec_right() - x,
            y,
            style,
        );
        (r.0, r.1)
    } else {
        (cells, x)
    }
}

/// Rows of text written top down from `area`'s left edge in one style, one
/// per row from row `k` on, stopping at the area's bottom.
pub open spec fn write_rows(
    barea: Rect,
    cells: Seq<CellView>,
    clip: Rect,
    rows: Seq<Seq<char>>,
    area: Rect,
    style: Style,
    k: int,
) -> Seq<CellView>
    decreases rows.len() - k,
{
    if k < 0 || k >= rows.len() || sat_add(area.y as int, k) >= area.spec_bottom() {
        cells
    } else {
        let r = clipped_write(barea, cells, clip, area.x as int, sat_add(area.y as int, k), rows[k], style);
        write_rows(barea, r.0, clip, rows, area, style, k + 1)
    }
}

/// Rows of text written one below the other from `(x, y)` on, row `k` of
/// them at `y + k` (saturating), with no bottom edge of their own.
pub open spec fn stack_rows(
    barea: Rect,
    cells: Seq<CellView>,
    clip: Rect,
    rows: Seq<Seq<char>>,
    x: int,
    y: int,
    style: Style,
    k: int,
) -> Seq<CellView>
    decreases rows.len() - k,
{
    if k < 0 || k >= rows.len() {
        cells
    } else {
        let r = clipped_write(barea, cells, clip, x, sat_add(y, k), rows[k], style);
        stack_rows(barea, r.0, clip, rows, x, y, style, k + 1)
    }
}

/// Runs of text written left to right from column `x` on row `y`, each in
/// its own style, stopping once the column reaches `right`.
pub open spec fn write_runs(
    area: Rect,
    cells: Seq<CellView>,
    clip: Rect,
    runs: Seq<(Seq<char>, Style)>,
    x: int,
    y: int,
    right: int,
    k: int,
) -> Seq<CellView>
    decreases runs.len() - k,
{
    if k >= runs.len() || k < 0 || x >= right {
        cells
    } else {
        let r = clipped_write(area, cells, clip, x, y, runs[k].0, runs[k].1);
        write_runs(area, r.0, clip, runs, r.1, y, right, k + 1)
    }
}

/// The column [`write_runs`] leaves off at.
pub open spec fn runs_col(
    area: Rect,
    cells: Seq<CellView>,
    clip: Rect,
    runs: Seq<(Seq<char>, Style)>,
    x: int,
    y: int,
    right: int,
    k: int,
) -> int
    decreases runs.len() - k,
{
    if k >= runs.len() || k < 0 || x >= right {
        x
    } else {
        let r = clipped_write(area, cells, clip, x, y, runs[k].0, runs[k].1);
        runs_col(area, r.0, clip, runs, r.1, y, right, k + 1)
    }
}

/// What [`Surface::set`] does to the cells: `(x, y)` shows `ch` in `style`
/// when it lies in both the clip and the buffer.
pub open spec fn set_cell(barea: Rect, cells: Seq<CellView>, clip: Rect, x: int, y: int, ch: char, style: Style) -> Seq<CellView> {
    if clip.holds(x, y) && barea.holds(x, y) {
        cells.update(flat_index(barea, x, y), styled(with_symbol(cells[flat_index(barea, x, y)], seq![ch]), style))
    } else {
        cells
    }
}

/// Columns `x` up to `right` of row `y` each set to `ch` in `style`.
pub open spec fn fill_span(
    barea: Rect,
    cells: Seq<CellView>,
    clip: Rect,
    x: int,
    right: int,
    y: int,
    ch: char,
    style: Style,
) -> Seq<CellView>
    decreases right - x,
{
    if x >= right {
        cells
    } else {
        fill_span(barea, set_cell(barea, cells, clip, x, y, ch, style), clip, x + 1, right, y, ch, style)
    }
}

/// `old` showing the glyph and style `f` names, when inside `clip`.
pub open spec fn paint_cell(old: CellView, f: Option<(char, Style)>, clip: Rect, x: int, y: int) -> CellView {
    match f {
        Some(c) => if clip.holds(x, y) {
            styled(with_symbol(old, seq![c.0]), c.1)
        } else {
            old
        },
        None => old,
    }
}

/// Repainting a cell with a style that only sets the foreground leaves what
/// painting it once would.
pub proof fn lemma_recolor(c: CellView, a: char, s1: Style, b: char, s2: Style)
    requires
        s1.bg.is_none() && s1.underline_color.is_none() && s1.add_modifier.bits == 0 && s1.sub_modifier.bits == 0,
        s2.bg.is_none() && s2.underline_color.is_none() && s2.add_modifier.bits == 0 && s2.sub_modifier.bits == 0,
        s2.fg.is_some(),
    ensures
        styled(with_symbol(styled(with_symbol(c, seq![a]), s1), seq![b]), s2) == styled(with_symbol(c, seq![b]), s2),
{
    let m = c.modifier.bits;
    assert(((m | 0u16) & !0u16) == m) by (bit_vector);
    assert((((m | 0u16) & !0u16) | 0u16) & !0u16 == m) by (bit_vector);
}

/// `old` with every cell where `f` names a glyph, inside `clip`, showing it
/// in `style`.
pub open spec fn painted(old: CellView, f: Option<char>, clip: Rect, x: int, y: int, style: Style) -> CellView {
    match f {
        Some(ch) => if clip.holds(x, y) {
            styled(with_symbol(old, seq![ch]), style)
        } else {
            old
        },
        None => old,
    }
}

/// The glyph a frame of `area` has at `(x, y)`, if any: a corner, an edge,
/// or nothing inside. In a one-row or one-column frame the later corners
/// win: bottom over top, right over left.
pub open spec fn border_glyph(area: Rect, g: BorderGlyphs, x: int, y: int) -> Option<char> {
    let right = area.spec_right() - 1;
    let bottom = area.spec_bottom() - 1;
    if area.width == 0 || area.height == 0 {
        None
    } else if x == right && y == bottom {
        Some(g.bottom_right)
    } else if x == area.x && y == bottom {
        Some(g.bottom_left)
    } else if x == right && y == area.y {
        Some(g.top_right)
    } else if x == area.x && y == area.y {
        Some(g.top_left)
    } else if (x == area.x || x == right) && area.y < y < bottom {
        Some(g.vertical)
    } else if (y == area.y || y == bottom) && area.x < x < right {
        Some(g.horizontal)
    } else {
        None
    }
}

proof fn lemma_restyle(c: CellView, a: Seq<char>, b: Seq<char>, s: Style)
    ensures
        styled(with_symbol(styled(with_symbol(c, a), s), b), s) == styled(with_symbol(c, b), s),
{
    let m = c.modifier.bits;
    let ad = s.add_modifier.bits;
    let sb = s.sub_modifier.bits;
    assert(((((m | ad) & !sb) | ad) & !sb) == ((m | ad) & !sb)) by (bit_vector);
}

/// One more cell painted: `after` is `before` with `(px, py)` set to `ch`.
proof fn lemma_paint_step(
    base: Surface,
    before: Surface,
    after: Surface,
    f: spec_fn(int, int) -> Option<char>,
    px: int,
    py: int,
    ch: char,
    style: Style,
)
    requires
        before.buffer.area == base.buffer.area,
        before.clip == base.clip,
        after.buffer.area == base.buffer.area,
        forall|x: int, y: int|
            base.buffer.area.holds(x, y) ==> #[trigger] before.buffer.at(x, y) == painted(
                base.buffer.at(x, y),
                f(x, y),
                base.clip,
                x,
                y,
                style,
            ),
        forall|x: int, y: int|
            base.buffer.area.holds(x, y) ==> #[trigger] after.buffer.at(x, y) == if x == px && y == py
                && base.clip.holds(x, y) {
                styled(with_symbol(before.buffer.at(x, y), seq![ch]), style)
            } else {
                before.buffer.at(x, y)
            },
    ensures
        forall|x: int, y: int|
            base.buffer.area.holds(x, y) ==> #[trigger] after.buffer.at(x, y) == painted(
                base.buffer.at(x, y),
                if x == px && y == py {
                    Some(ch)
                } else {
                    f(x, y)
                },
                base.clip,
                x,
                y,
                style,
            ),
{
    assert forall|x: int, y: int| base.buffer.area.holds(x, y) implies #[trigger] after.buffer.at(x, y) == painted(
        base.buffer.at(x, y),
        if x == px && y == py {
            Some(ch)
        } else {
            f(x, y)
        },
        base.clip,
        x,
        y,
        style,
    ) by {
        assert(before.buffer.at(x, y) == painted(base.buffer.at(x, y), f(x, y), base.clip, x, y, style));
        if x == px && y == py && base.clip.holds(x, y) {
            match f(x, y) {
                Some(c0) => {
                    lemma_restyle(base.buffer.at(x, y), seq![c0], seq![ch], style);
                },
                None => {},
            }
        }
    }
}

impl Surface {
    pub open spec fn wf(&self) -> bool {
        self.buffer.wf()
    }

    /// A surface over `buffer`, clipped to `area` (within the buffer).
    pub fn new(buffer: Buffer, area: Rect) -> (s: Surface)
        requires
            buffer.wf(),
        ensures
            s.wf(),
            s.buffer == buffer,
            s.clip == area.spec_intersection(buffer.area),
    {
        let clip = area.intersection(buffer.area);
        Surface { buffer, clip }
    }

    /// Give the buffer back.
    pub fn into_buffer(self) -> (b: Buffer)
        ensures
            b == self.buffer,
    {
        self.buffer
    }

    /// Narrow the clip to `rect` (within the current clip); returns the clip it
    /// replaced, for [`restore_clip`](Self::restore_clip).
    pub fn narrow(&mut self, rect: Rect) -> (prev: Rect)
        ensures
            prev == old(self).clip,
            final(self).clip == rect.spec_intersection(old(self).clip),
            final(self).buffer == old(self).buffer,
    {
        let prev = self.clip;
        self.clip = rect.intersection(prev);
        prev
    }

    /// Put back a clip returned by [`narrow`](Self::narrow).
    pub fn restore_clip(&mut self, clip: Rect)
        ensures
            final(self).clip == clip,
            final(self).buffer == old(self).buffer,
    {
        self.clip = clip;
    }

    /// Write `s` from `(x, y)` within the clip. Returns the column after what
    /// was written (`x` itself when the start is outside the clip).
    pub fn set_string(&mut self, x: u16, y: u16, s: &str, style: Style) -> (r: u16)
        requires
            old(self).wf(),
        ensures
            final(self).wf(),
            final(self).clip == old(self).clip,
            final(self).buffer.area == old(self).buffer.area,
            (final(self).buffer.cells(), r as int) == clipped_write(
                old(self).buffer.area,
                old(self).buffer.cells(),
                old(self).clip,
                x as int,
                y as int,
                s@,
                style,
            ),
    {
        if y >= self.clip.y && y < self.clip.bottom() && x >= self.clip.x && x < self.clip.right() {
            let limit = (self.clip.right() - x) as usize;
            self.buffer.set_stringn(x, y, s, limit, style).0
        } else {
            x
        }
    }

    /// Set one cell to `ch` in `style`, if it is inside the clip.
    pub fn set(&mut self, x: u16, y: u16, ch: char, style: Style)
        requires
            old(self).wf(),
        ensures
            final(self).wf(),
            final(self).clip == old(self).clip,
            final(self).buffer.area == old(self).buffer.area,
            (old(self).clip.holds(x as int, y as int) && old(self).buffer.area.holds(x as int, y as int))
                ==> final(self).buffer.cells() == old(self).buffer.cells().update(
                crate::buffer::flat_index(old(self).buffer.area, x as int, y as int),
                styled(with_symbol(old(self).buffer.at(x as int, y as int), seq![ch]), style),
            ),
            !(old(self).clip.holds(x as int, y as int) && old(self).buffer.area.holds(x as int, y as int))
                ==> final(self).buffer.cells() == old(self).buffer.cells(),
            forall|px: int, py: int|
                old(self).buffer.area.holds(px, py) ==> #[trigger] final(self).buffer.at(px, py) == if px == x && py
                    == y && old(self).clip.holds(px, py) {
                    styled(with_symbol(old(self).buffer.at(px, py), seq![ch]), style)
                } else {
                    old(self).buffer.at(px, py)
                },
    {
        proof {
            assert forall|px: int, py: int|
                old(self).buffer.area.holds(px, py) && !(px == x && py == y) && old(self).buffer.area.holds(
                    x as int,
                    y as int,
                ) implies flat_index(old(self).buffer.area, px, py) != flat_index(
                old(self).buffer.area,
                x as int,
                y as int,
            ) by {
                lemma_pos_of_flat(old(self).buffer.area, px, py);
                lemma_pos_of_flat(old(self).buffer.area, x as int, y as int);
            }
            assert forall|px: int, py: int| old(self).buffer.area.holds(px, py) implies 0 <= flat_index(
                old(self).buffer.area,
                px,
                py,
            ) < old(self).buffer.cells().len() by {
                lemma_flat_index_bounds(old(self).buffer.area, px, py);
            }
        }
        if self.clip.contains(Position { x, y }) {
            match self.buffer.cell(Position { x, y }) {
                Some(c) => {
                    let mut cell = c.clone();
                    cell.set_char(ch);
                    cell.set_style(style);
                    self.buffer.set_cell(Position { x, y }, cell);
                },
                None => {},
            }
        }
    }

    /// Apply `style` to every cell of the clip.
    pub fn fill(&mut self, style: Style)
        requires
            old(self).wf(),
        ensures
            final(self).wf(),
            final(self).clip == old(self).clip,
            final(self).buffer.area == old(self).buffer.area,
            forall|x: int, y: int|
                old(self).buffer.area.holds(x, y) ==> #[trigger] final(self).buffer.at(x, y) == if old(
                    self,
                ).clip.holds(x, y) {
                    styled(old(self).buffer.at(x, y), style)
                } else {
                    old(self).buffer.at(x, y)
                },
            final(self).buffer.cells() == restyled(
                old(self).buffer.area,
                old(self).buffer.cells(),
                old(self).clip.spec_intersection(old(self).buffer.area),
                style,
            ),
    {
        let clip = self.clip;
        self.buffer.set_style(clip, style);
    }
    /// Frame `area` with `glyphs`: edges first, then the four corners, each
    /// cell clipped like [`set`](Self::set).
    pub fn draw_border(&mut self, area: Rect, glyphs: BorderGlyphs, style: Style)
        requires
            old(self).wf(),
        ensures
            final(self).wf(),
            final(self).clip == old(self).clip,
            final(self).buffer.area == old(self).buffer.area,
            forall|x: int, y: int|
                old(self).buffer.area.holds(x, y) ==> #[trigger] final(self).buffer.at(x, y) == painted(
                    old(self).buffer.at(x, y),
                    border_glyph(area, glyphs, x, y),
                    old(self).clip,
                    x,
                    y,
                    style,
                ),
    {
        let ghost base = *self;
        if area.is_empty() {
            return;
        }
        let right = area.right() - 1;
        let bottom = area.bottom() - 1;
        let ghost ax = area.x as int;
        let ghost ay = area.y as int;
        let ghost r = right as int;
        let ghost b = bottom as int;
        let ghost hz = glyphs.horizontal;
        let ghost vt = glyphs.vertical;
        let mut x = area.x.saturating_add(1);
        while x < right
            invariant
                self.wf(),
                self.clip == base.clip,
                self.buffer.area == base.buffer.area,
                ax < x || x == 65535,
                x <= r || x == sat_add(ax, 1),
                ax == area.x,
                ay == area.y,
                r == right,
                b == bottom,
                hz == glyphs.horizontal,
                forall|px: int, py: int|
                    base.buffer.area.holds(px, py) ==> #[trigger] self.buffer.at(px, py) == painted(
                        base.buffer.at(px, py),
                        if (py == ay || py == b) && ax < px < x {
                            Some(hz)
                        } else {
                            None
                        },
                        base.clip,
                        px,
                        py,
                        style,
                    ),
            decreases right - x,
        {
            let ghost s0 = *self;
            self.set(x, area.y, glyphs.horizontal, style);
            proof {
                lemma_paint_step(
                    base,
                    s0,
                    *self,
                    |px: int, py: int| if (py == ay || py == b) && ax < px < x { Some(hz) } else { None },
                    x as int,
                    ay,
                    hz,
                    style,
                );
            }
            let ghost s1 = *self;
            self.set(x, bottom, glyphs.horizontal, style);
            proof {
                lemma_paint_step(
                    base,
                    s1,
                    *self,
                    |px: int, py: int|
                        if px == x && py == ay {
                            Some(hz)
                        } else if (py == ay || py == b) && ax < px < x {
                            Some(hz)
                        } else {
                            None
                        },
                    x as int,
                    b,
                    hz,
                    style,
                );
                assert forall|px: int, py: int| base.buffer.area.holds(px, py) implies #[trigger] self.buffer.at(px, py)
                    == painted(
                    base.buffer.at(px, py),
                    if (py == ay || py == b) && ax < px < x + 1 {
                        Some(hz)
                    } else {
                        None
                    },
                    base.clip,
                    px,
                    py,
                    style,
                ) by {}
            }
            x = x + 1;
        }
        proof {
            assert forall|px: int, py: int| base.buffer.area.holds(px, py) implies #[trigger] self.buffer.at(px, py)
                == painted(
                base.buffer.at(px, py),
                if (px == ax || px == r) && ay < py < sat_add(ay, 1) {
                    Some(vt)
                } else if (py == ay || py == b) && ax < px < r {
                    Some(hz)
                } else {
                    None
                },
                base.clip,
                px,
                py,
                style,
            ) by {
                assert(self.buffer.at(px, py) == painted(
                    base.buffer.at(px, py),
                    if (py == ay || py == b) && ax < px < x {
                        Some(hz)
                    } else {
                        None
                    },
                    base.clip,
                    px,
                    py,
                    style,
                ));
            }
        }
        let mut y = area.y.saturating_add(1);
        while y < bottom
            invariant
                self.wf(),
                self.clip == base.clip,
                self.buffer.area == base.buffer.area,
                ay < y || y == 65535,
                y <= b || y == sat_add(ay, 1),
                ax == area.x,
                ay == area.y,
                r == right,
                b == bottom,
                hz == glyphs.horizontal,
                vt == glyphs.vertical,
                forall|px: int, py: int|
                    base.buffer.area.holds(px, py) ==> #[trigger] self.buffer.at(px, py) == painted(
                        base.buffer.at(px, py),
                        if (px == ax || px == r) && ay < py < y {
                            Some(vt)
                        } else if (py == ay || py == b) && ax < px < r {
                            Some(hz)
                        } else {
                            None
                        },
                        base.clip,
                        px,
                        py,
                        style,
                    ),
            decreases bottom - y,
        {
            let ghost s0 = *self;
            self.set(area.x, y, glyphs.vertical, style);
            proof {
                lemma_paint_step(
                    base,
                    s0,
                    *self,
                    |px: int, py: int|
                        if (px == ax || px == r) && ay < py < y {
                            Some(vt)
                        } else if (py == ay || py == b) && ax < px < r {
                            Some(hz)
                        } else {
                            None
                        },
                    ax,
                    y as int,
                    vt,
                    style,
                );
            }
            let ghost s1 = *self;
            self.set(right, y, glyphs.vertical, style);
            proof {
                lemma_paint_step(
                    base,
                    s1,
                    *self,
                    |px: int, py: int|
                        if px == ax && py == y {
                            Some(vt)
                        } else if (px == ax || px == r) && ay < py < y {
                            Some(vt)
                        } else if (py == ay || py == b) && ax < px < r {
                            Some(hz)
                        } else {
                            None
                        },
                    r,
                    y as int,
                    vt,
                    style,
                );
                assert forall|px: int, py: int| base.buffer.area.holds(px, py) implies #[trigger] self.buffer.at(px, py)
                    == painted(
                    base.buffer.at(px, py),
                    if (px == ax || px == r) && ay < py < y + 1 {
                        Some(vt)
                    } else if (py == ay || py == b) && ax < px < r {
                        Some(hz)
                    } else {
                        None
                    },
                    base.clip,
                    px,
                    py,
                    style,
                ) by {}
            }
            y = y + 1;
        }
        let ghost f0 = |px: int, py: int|
            if (px == ax || px == r) && ay < py < b {
                Some(vt)
            } else if (py == ay || py == b) && ax < px < r {
                Some(hz)
            } else {
                None
            };
        let ghost tl = glyphs.top_left;
        let ghost tr = glyphs.top_right;
        let ghost bl = glyphs.bottom_left;
        let ghost br = glyphs.bottom_right;
        proof {
            assert forall|px: int, py: int| base.buffer.area.holds(px, py) implies #[trigger] self.buffer.at(px, py)
                == painted(base.buffer.at(px, py), f0(px, py), base.clip, px, py, style) by {
                assert(self.buffer.at(px, py) == painted(
                    base.buffer.at(px, py),
                    if (px == ax || px == r) && ay < py < y {
                        Some(vt)
                    } else if (py == ay || py == b) && ax < px < r {
                        Some(hz)
                    } else {
                        None
                    },
                    base.clip,
                    px,
                    py,
                    style,
                ));
            }
        }
        let ghost s0 = *self;
        self.set(area.x, area.y, glyphs.top_left, style);
        proof {
            lemma_paint_step(base, s0, *self, f0, ax, ay, tl, style);
        }
        let ghost f1 = |px: int, py: int| if px == ax && py == ay { Some(tl) } else { f0(px, py) };
        let ghost s1 = *self;
        self.set(right, area.y, glyphs.top_right, style);
        proof {
            lemma_paint_step(base, s1, *self, f1, r, ay, tr, style);
        }
        let ghost f2 = |px: int, py: int| if px == r && py == ay { Some(tr) } else { f1(px, py) };
        let ghost s2 = *self;
        self.set(area.x, bottom, glyphs.bottom_left, style);
        proof {
            lemma_paint_step(base, s2, *self, f2, ax, b, bl, style);
        }
        let ghost f3 = |px: int, py: int| if px == ax && py == b { Some(bl) } else { f2(px, py) };
        let ghost s3 = *self;
        self.set(right, bottom, glyphs.bottom_right, style);
        proof {
            lemma_paint_step(base, s3, *self, f3, r, b, br, style);
            assert forall|px: int, py: int| base.buffer.area.holds(px, py) implies #[trigger] self.buffer.at(px, py)
                == painted(base.buffer.at(px, py), border_glyph(area, glyphs, px, py), base.clip, px, py, style) by {
                assert((if px == r && py == b { Some(br) } else { f3(px, py) }) == border_glyph(area, glyphs, px, py));
            }
        }
    }
}

} // verus!
