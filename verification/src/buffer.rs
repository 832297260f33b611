//! The cell grid: [`Cell`] and [`Buffer`].
//!
//! A [`Buffer`] is a rectangle of cells, one grapheme cluster plus attributes
//! each. Wide clusters live in their leading cell; the cell to their right is
//! left as an empty placeholder. [`Buffer::diff`] compares two frames and yields
//! only the cells that changed.

use vstd::prelude::*;
use crate::geometry::{Position, Rect, sat_add, sat_sub, min};
use crate::graphemes::{graphemes, views, grapheme_clusters};
use crate::style::{Color, Modifier, Style, or_else};
use crate::text::{Line, Span};
use crate::width::{cluster_cols, grapheme_cols, lemma_cluster_cols_le_2, str_cols, cap16, text_cols};

verus! {

/// How [`Buffer::diff`] treats one cell.
#[derive(Clone, Copy, Debug, PartialEq, Eq, Structural, Hash)]
pub enum CellDiffOption {
    /// Compare against the previous frame; write when it differs.
    Compare,
    /// Never write this cell (something outside the grid owns it).
    Skip,
    /// Always write this cell, even when unchanged.
    AlwaysUpdate,
    /// Treat the cell as exactly this many columns wide.
    ForcedWidth(NonZeroWidth),
}

/// A cell width of at least one column.
#[derive(Clone, Copy, Debug, PartialEq, Eq, Structural, Hash)]
pub struct NonZeroWidth {
    value: u16,
}

impl NonZeroWidth {
    #[verifier::type_invariant]
    spec fn at_least_one(self) -> bool {
        self.value >= 1
    }

    /// The width in columns.
    pub closed spec fn cols(self) -> u16 {
        self.value
    }

    /// `Some` width of `n` columns, or `None` when `n` is zero.
    pub fn new(n: u16) -> (r: Option<NonZeroWidth>)
        ensures
            r.is_some() <==> n >= 1,
            r matches Some(w) ==> w.cols() == n,
    {
        if n >= 1 {
            Some(NonZeroWidth { value: n })
        } else {
            None
        }
    }

    /// The width in columns, never zero.
    pub fn get(&self) -> (n: u16)
        ensures
            n == self.cols(),
            n >= 1,
    {
        proof {
            use_type_invariant(self);
        }
        self.value
    }
}

/// What a cell holds, as a value.
pub struct CellView {
    pub symbol: Seq<char>,
    pub fg: Color,
    pub bg: Color,
    pub underline_color: Color,
    pub modifier: Modifier,
    pub diff_option: CellDiffOption,
}

/// One cell of the grid: a grapheme cluster and its attributes.
#[derive(Debug, PartialEq, Eq)]
pub struct Cell {
    /// The grapheme cluster; empty for the placeholder right of a wide one.
    pub symbol: String,
    pub fg: Color,
    pub bg: Color,
    pub underline_color: Color,
    pub modifier: Modifier,
    pub diff_option: CellDiffOption,
}

impl View for Cell {
    type V = CellView;

    open spec fn view(&self) -> CellView {
        CellView {
            symbol: self.symbol@,
            fg: self.fg,
            bg: self.bg,
            underline_color: self.underline_color,
            modifier: self.modifier,
            diff_option: self.diff_option,
        }
    }
}

impl Clone for Cell {
    fn clone(&self) -> (c: Self)
        ensures
            c@ == self@,
    {
        Cell {
            symbol: self.symbol.clone(),
            fg: self.fg,
            bg: self.bg,
            underline_color: self.underline_color,
            modifier: self.modifier,
            diff_option: self.diff_option,
        }
    }
}

/// The blank, unstyled cell.
pub open spec fn blank_cell() -> CellView {
    CellView {
        symbol: seq![' '],
        fg: Color::Reset,
        bg: Color::Reset,
        underline_color: Color::Reset,
        modifier: Modifier { bits: 0 },
        diff_option: CellDiffOption::Compare,
    }
}

/// `c` with `style` applied: set colors override, modifiers are added and
/// removed.
pub open spec fn styled(c: CellView, s: Style) -> CellView {
    CellView {
        fg: match s.fg {
            Some(x) => x,
            None => c.fg,
        },
        bg: match s.bg {
            Some(x) => x,
            None => c.bg,
        },
        underline_color: match s.underline_color {
            Some(x) => x,
            None => c.underline_color,
        },
        modifier: c.modifier.spec_union(s.add_modifier).spec_difference(s.sub_modifier),
        ..c
    }
}

/// `c` showing `symbol`.
pub open spec fn with_symbol(c: CellView, symbol: Seq<char>) -> CellView {
    CellView { symbol, ..c }
}

/// What a cell displays: its symbol, or a space when it is blank.
pub open spec fn shown(symbol: Seq<char>) -> Seq<char> {
    if symbol.len() == 0 {
        seq![' ']
    } else {
        symbol
    }
}

/// Columns a cell occupies, honoring a forced width.
pub open spec fn cell_cols(c: CellView) -> int {
    match c.diff_option {
        CellDiffOption::ForcedWidth(w) => w.cols() as int,
        _ => cluster_cols(shown(c.symbol)) as int,
    }
}

impl Cell {
    /// A cell showing `symbol`, unstyled.
    pub fn new(symbol: &str) -> (c: Cell)
        ensures
            c@ == with_symbol(blank_cell(), symbol@),
    {
        let mut cell = Cell::default();
        cell.set_symbol(symbol);
        cell
    }

    /// The grapheme cluster, or `" "` when this cell is blank.
    pub fn symbol(&self) -> (s: &str)
        ensures
            s@ == shown(self.symbol@),
    {
        if self.symbol.as_str().is_empty() {
            proof {
                reveal_strlit(" ");
            }
            " "
        } else {
            self.symbol.as_str()
        }
    }

    /// The symbol exactly as stored: empty for the placeholder right of a wide
    /// cluster.
    pub fn raw_symbol(&self) -> (s: &str)
        ensures
            s@ == self.symbol@,
    {
        self.symbol.as_str()
    }

    /// Set the grapheme cluster.
    pub fn set_symbol(&mut self, symbol: &str)
        ensures
            final(self)@ == with_symbol(old(self)@, symbol@),
    {
        self.symbol = symbol.to_owned();
    }

    /// Set the cell to a single character.
    pub fn set_char(&mut self, ch: char)
        ensures
            final(self)@ == with_symbol(old(self)@, seq![ch]),
    {
        let mut s = String::new();
        crate::graphemes::push_char(&mut s, ch);
        proof {
            assert(s@ == seq![ch]);
        }
        self.symbol = s;
    }

    /// Set the foreground color.
    pub fn set_fg(&mut self, color: Color)
        ensures
            final(self)@ == (CellView { fg: color, ..old(self)@ }),
    {
        self.fg = color;
    }

    /// Set the background color.
    pub fn set_bg(&mut self, color: Color)
        ensures
            final(self)@ == (CellView { bg: color, ..old(self)@ }),
    {
        self.bg = color;
    }

    /// Apply `style`, leaving fields the style does not set untouched.
    pub fn set_style(&mut self, style: Style)
        ensures
            final(self)@ == styled(old(self)@, style),
    {
        if let Some(fg) = style.fg {
            self.fg = fg;
        }
        if let Some(bg) = style.bg {
            self.bg = bg;
        }
        if let Some(underline) = style.underline_color {
            self.underline_color = underline;
        }
        self.modifier = self.modifier.union(style.add_modifier).difference(style.sub_modifier);
    }

    /// This cell's attributes as a style.
    pub fn style(&self) -> (s: Style)
        ensures
            s == (Style {
                fg: Some(self.fg),
                bg: Some(self.bg),
                underline_color: Some(self.underline_color),
                add_modifier: self.modifier,
                sub_modifier: Modifier { bits: 0 },
            }),
    {
        Style {
            fg: Some(self.fg),
            bg: Some(self.bg),
            underline_color: Some(self.underline_color),
            add_modifier: self.modifier,
            sub_modifier: Modifier::empty(),
        }
    }

    /// Set how the diff treats this cell.
    pub fn set_diff_option(&mut self, diff_option: CellDiffOption)
        ensures
            final(self)@ == (CellView { diff_option, ..old(self)@ }),
    {
        self.diff_option = diff_option;
    }

    /// Reset to blank and unstyled.
    pub fn reset(&mut self)
        ensures
            final(self)@ == blank_cell(),
    {
        proof {
            reveal_strlit(" ");
            assert(" "@ =~= seq![' ']);
        }
        self.symbol = " ".to_owned();
        self.fg = Color::Reset;
        self.bg = Color::Reset;
        self.underline_color = Color::Reset;
        self.modifier = Modifier::empty();
        self.diff_option = CellDiffOption::Compare;
    }

    /// Display width in columns, honoring a forced width.
    pub fn cell_width(&self) -> (w: u16)
        ensures
            w == cell_cols(self@),
    {
        match self.diff_option {
            CellDiffOption::ForcedWidth(width) => width.get(),
            _ => grapheme_cols(self.symbol()),
        }
    }

    fn is_skipped(&self) -> (b: bool)
        ensures
            b == (self.diff_option == CellDiffOption::Skip),
    {
        match self.diff_option {
            CellDiffOption::Skip => true,
            _ => false,
        }
    }

    /// Whether two cells hold the same symbol and attributes.
    pub fn same_as(&self, other: &Cell) -> (b: bool)
        ensures
            b == (self@ == other@),
    {
        self.symbol == other.symbol && self.fg == other.fg && self.bg == other.bg
            && self.underline_color == other.underline_color && self.modifier == other.modifier
            && self.diff_option == other.diff_option
    }
}

impl Default for Cell {
    fn default() -> (c: Cell)
        ensures
            c@ == blank_cell(),
    {
        proof {
            reveal_strlit(" ");
            assert(" "@ =~= seq![' ']);
        }
        Cell {
            symbol: " ".to_owned(),
            fg: Color::Reset,
            bg: Color::Reset,
            underline_color: Color::Reset,
            modifier: Modifier::empty(),
            diff_option: CellDiffOption::Compare,
        }
    }
}

/// The cell views of a list of cells.
pub open spec fn cell_views(v: Seq<Cell>) -> Seq<CellView> {
    v.map_values(|c: Cell| c@)
}

/// Flat index of an in-area position.
pub open spec fn flat_index(area: Rect, x: int, y: int) -> int {
    (y - area.y) * area.width + (x - area.x)
}

/// Screen column of a flat index (wrapping at `u16`, as the cast does).
pub open spec fn col_of(area: Rect, index: int) -> int {
    let w = if area.width == 0 { 1int } else { area.width as int };
    (index % w + area.x) % 65536
}

/// Screen row of a flat index (wrapping at `u16`, as the cast does).
pub open spec fn row_of(area: Rect, index: int) -> int {
    let w = if area.width == 0 { 1int } else { area.width as int };
    (index / w + area.y) % 65536
}

pub proof fn lemma_flat_index_bounds(area: Rect, x: int, y: int)
    requires
        area.holds(x, y),
    ensures
        0 <= flat_index(area, x, y) < area.spec_area(),
{
    let dx = x - area.x;
    let dy = y - area.y;
    assert(0 <= dx < area.width);
    assert(0 <= dy < area.height);
    assert(dy * area.width + dx < area.width * area.height) by (nonlinear_arith)
        requires
            0 <= dx < area.width,
            0 <= dy < area.height,
    ;
    assert(0 <= dy * area.width) by (nonlinear_arith)
        requires
            0 <= dy,
            0 <= area.width,
    ;
}

/// A rectangle of cells, indexed by absolute screen coordinate.
#[derive(Debug, PartialEq, Eq)]
pub struct Buffer {
    /// The region this buffer covers, in screen coordinates.
    pub area: Rect,
    /// Cells in row-major order, `area.area()` of them.
    pub content: Vec<Cell>,
}


impl Clone for Buffer {
    fn clone(&self) -> (b: Self)
        ensures
            b.area == self.area,
            b.cells() == self.cells(),
    {
        let mut content: Vec<Cell> = Vec::new();
        let mut i: usize = 0;
        while i < self.content.len()
            invariant
                i <= self.content@.len(),
                cell_views(content@) == self.cells().take(i as int),
            decreases self.content@.len() - i,
        {
            let ghost pre = cell_views(content@);
            content.push(self.content[i].clone());
            proof {
                assert(cell_views(content@) =~= pre.push(self.cells()[i as int]));
                assert(self.cells().take(i as int + 1) =~= self.cells().take(i as int).push(self.cells()[i as int]));
            }
            i = i + 1;
        }
        proof {
            assert(self.cells().take(i as int) =~= self.cells());
        }
        Buffer { area: self.area, content }
    }
}

impl Buffer {
    /// The cells as values.
    pub open spec fn cells(&self) -> Seq<CellView> {
        cell_views(self.content@)
    }

    /// Well-formed: one cell per position of the area.
    pub open spec fn wf(&self) -> bool {
        self.content@.len() == self.area.spec_area()
    }

    /// The cell at an in-area position.
    pub open spec fn at(&self, x: int, y: int) -> CellView {
        self.cells()[flat_index(self.area, x, y)]
    }

    /// A buffer of blank cells covering `area`.
    pub fn empty(area: Rect) -> (b: Buffer)
        ensures
            b.wf(),
            b.area == area,
            forall|i: int| 0 <= i < b.content@.len() ==> #[trigger] b.cells()[i] == blank_cell(),
    {
        Buffer::filled(area, Cell::default())
    }

    /// A buffer covering `area` with every cell a copy of `cell`.
    pub fn filled(area: Rect, cell: Cell) -> (b: Buffer)
        ensures
            b.wf(),
            b.area == area,
            forall|i: int| 0 <= i < b.content@.len() ==> #[trigger] b.cells()[i] == cell@,
    {
        let size = area.area() as usize;
        let mut content: Vec<Cell> = Vec::new();
        let mut i: usize = 0;
        while i < size
            invariant
                i <= size,
                size == area.spec_area(),
                content@.len() == i,
                forall|j: int| 0 <= j < i ==> (#[trigger] content@[j])@ == cell@,
            decreases size - i,
        {
            content.push(cell.clone());
            i = i + 1;
        }
        let b = Buffer { area, content };
        proof {
            assert forall|i: int| 0 <= i < b.content@.len() implies #[trigger] b.cells()[i]
                == cell@ by {
                assert(b.content@[i]@ == cell@);
            }
        }
        b
    }

    /// Flat index of a screen position, or `None` when outside the area.
    pub fn index_of(&self, x: u16, y: u16) -> (r: Option<usize>)
        ensures
            r is Some <==> self.area.holds(x as int, y as int),
            r matches Some(i) ==> i == flat_index(self.area, x as int, y as int),
            r matches Some(i) ==> i < self.area.spec_area(),
    {
        if !self.area.contains(Position { x, y }) {
            return None;
        }
        proof {
            lemma_flat_index_bounds(self.area, x as int, y as int);
            lemma_area_bound(self.area);
        }
        let dx = (x - self.area.x) as usize;
        let dy = (y - self.area.y) as usize;
        Some(dy * self.area.width as usize + dx)
    }

    /// The screen position of a flat index.
    fn pos_of(&self, index: usize) -> (p: (u16, u16))
        requires
            index < self.area.spec_area(),
        ensures
            p.0 == col_of(self.area, index as int),
            p.1 == row_of(self.area, index as int),
    {
        let width: usize = if self.area.width == 0 { 1 } else { self.area.width as usize };
        proof {
            let w = self.area.width as int;
            let h = self.area.height as int;
            let ii = index as int;
            assert(w > 0) by (nonlinear_arith)
                requires
                    0 <= ii < w * h,
                    h >= 0,
            ;
            assert(ii / w < h && ii % w < w && ii / w >= 0 && ii % w >= 0) by (nonlinear_arith)
                requires
                    0 <= ii < w * h,
                    w == width,
            ;
        }
        let x = index % width + self.area.x as usize;
        let y = index / width + self.area.y as usize;
        ((x % 65536) as u16, (y % 65536) as u16)
    }

    /// The cell at `position`, or `None` when outside the area.
    pub fn cell(&self, position: Position) -> (r: Option<&Cell>)
        requires
            self.wf(),
        ensures
            r is Some <==> self.area.holds(position.x as int, position.y as int),
            r matches Some(c) ==> c@ == self.at(position.x as int, position.y as int),
    {
        match self.index_of(position.x, position.y) {
            Some(index) => Some(&self.content[index]),
            None => None,
        }
    }


    /// Mutable access to the cell at `position`, or `None` when outside.
    pub fn cell_mut(&mut self, position: Position) -> (r: Option<&mut Cell>)
        requires
            old(self).wf(),
        ensures
            r is Some <==> old(self).area.holds(position.x as int, position.y as int),
            r matches Some(c) ==> (*c)@ == old(self).at(position.x as int, position.y as int),
            r matches Some(c) ==> final(self).area == old(self).area && final(self).cells() == old(self).cells().update(
                flat_index(old(self).area, position.x as int, position.y as int),
                (*final(c))@,
            ),
            r is None ==> *final(self) == *old(self),
    {
        match self.index_of(position.x, position.y) {
            Some(index) => Some(&mut self.content[index]),
            None => None,
        }
    }

    /// The cells, row-major.
    pub fn content(&self) -> (r: &[Cell])
        ensures
            r@ == self.content@,
    {
        self.content.as_slice()
    }

    /// Replace the cell at an in-area position.
    pub fn set_cell(&mut self, position: Position, cell: Cell)
        requires
            old(self).wf(),
        ensures
            final(self).wf(),
            final(self).area == old(self).area,
            old(self).area.holds(position.x as int, position.y as int) ==> final(self).cells()
                == old(self).cells().update(
                flat_index(old(self).area, position.x as int, position.y as int),
                cell@,
            ),
            !old(self).area.holds(position.x as int, position.y as int) ==> final(self).cells()
                == old(self).cells(),
    {
        if let Some(index) = self.index_of(position.x, position.y) {
            self.content.set(index, cell);
            proof {
                assert(self.cells() =~= old(self).cells().update(index as int, cell@));
            }
        }
    }

    /// Reset every cell to blank and unstyled.
    pub fn reset(&mut self)
        ensures
            final(self).area == old(self).area,
            final(self).content@.len() == old(self).content@.len(),
            forall|i: int| 0 <= i < final(self).content@.len() ==> #[trigger] final(self).cells()[i]
                == blank_cell(),
    {
        let n = self.content.len();
        let mut i: usize = 0;
        while i < n
            invariant
                i <= n,
                n == self.content@.len(),
                self.area == old(self).area,
                forall|j: int| 0 <= j < i ==> (#[trigger] self.content@[j])@ == blank_cell(),
            decreases n - i,
        {
            self.content.set(i, Cell::default());
            i = i + 1;
        }
        proof {
            assert forall|j: int| 0 <= j < self.content@.len() implies #[trigger] self.cells()[j]
                == blank_cell() by {
                assert(self.content@[j]@ == blank_cell());
            }
        }
    }

    /// Resize to `area`, keeping as many cells as still fit (by flat index) and
    /// blanking any new ones. Resizing to the same area changes nothing.
    pub fn resize(&mut self, area: Rect)
        ensures
            final(self).area == area,
            final(self).content@.len() == area.spec_area(),
            forall|i: int|
                0 <= i < min(area.spec_area(), old(self).content@.len() as int)
                    ==> #[trigger] final(self).cells()[i] == old(self).cells()[i],
            forall|i: int|
                old(self).content@.len() <= i < area.spec_area() ==> #[trigger] final(self).cells()[i] == blank_cell(),
    {
        let size = area.area() as usize;
        if self.content.len() > size {
            self.content.truncate(size);
        } else {
            let ghost before = self.content@;
            let blank = Cell::default();
            let n = self.content.len();
            let mut i = n;
            while i < size
                invariant
                    n <= i <= size,
                    self.content@.len() == i,
                    self.content@.subrange(0, n as int) == before,
                    blank@ == blank_cell(),
                    forall|j: int| n <= j < i ==> (#[trigger] self.content@[j])@ == blank_cell(),
                decreases size - i,
            {
                self.content.push(blank.clone());
                i = i + 1;
            }
            proof {
                assert forall|j: int| 0 <= j < n implies #[trigger] self.content@[j] == before[j] by {
                    assert(self.content@.subrange(0, n as int)[j] == self.content@[j]);
                }
            }
        }
        self.area = area;
    }


    /// Write `string` from `(x, y)` clipped to the area. Returns the column just
    /// past what was written.
    pub fn set_string(&mut self, x: u16, y: u16, string: &str, style: Style) -> (r: u16)
        requires
            old(self).wf(),
        ensures
            final(self).wf(),
            final(self).area == old(self).area,
            (final(self).cells(), r as int) == ({
                let w = write_clusters(
                    old(self).area,
                    old(self).cells(),
                    grapheme_clusters(string@),
                    x as int,
                    0,
                    u16::MAX as int,
                    y as int,
                    style,
                );
                (w.0, w.1)
            }),
    {
        self.set_stringn(x, y, string, usize::MAX, style).0
    }

    /// Write `string` from `(x, y)`, stopping after `max_width` columns or at
    /// the area's edge. Returns the next free column and the columns consumed.
    pub fn set_stringn(&mut self, x: u16, y: u16, string: &str, max_width: usize, style: Style) -> (r: (u16, u16))
        requires
            old(self).wf(),
        ensures
            final(self).wf(),
            final(self).area == old(self).area,
            (final(self).cells(), r.0 as int, r.1 as int) == write_clusters(
                old(self).area,
                old(self).cells(),
                grapheme_clusters(string@),
                x as int,
                0,
                min(max_width as int, u16::MAX as int),
                y as int,
                style,
            ),
    {
        let limit: u16 = if max_width < 65535 { max_width as u16 } else { 65535 };
        let gs = graphemes(string);
        let ghost all = views(gs@);
        let ghost target = write_clusters(
            self.area,
            self.cells(),
            all,
            x as int,
            0,
            limit as int,
            y as int,
            style,
        );
        let mut column = x;
        let mut used: u16 = 0;
        let mut i: usize = 0;
        proof {
            assert(all.skip(0) =~= all);
        }
        while i < gs.len()
            invariant_except_break
                i <= gs@.len(),
                all == views(gs@),
                self.wf(),
                self.area == old(self).area,
                write_clusters(
                    self.area,
                    self.cells(),
                    all.skip(i as int),
                    column as int,
                    used as int,
                    limit as int,
                    y as int,
                    style,
                ) == target,
            ensures
                self.wf(),
                self.area == old(self).area,
                (self.cells(), column as int, used as int) == target,
            decreases gs@.len() - i,
        {
            proof {
                assert(all.skip(i as int)[0] == gs@[i as int]@);
                assert(all.skip(i as int).drop_first() =~= all.skip(i as int + 1));
                lemma_area_bound(self.area);
            }
            let g = &gs[i];
            let width = grapheme_cols(g.as_str());
            if width == 0 {
                i = i + 1;
                continue;
            }
            if used.saturating_add(width) > limit || column >= self.area.right() {
                break;
            }
            let index = match self.index_of(column, y) {
                Some(index) => index,
                None => {
                    break;
                },
            };
            let ghost pre = self.cells();
            let mut cell = self.content[index].clone();
            cell.set_symbol(g.as_str());
            cell.set_style(style);
            self.content.set(index, cell);
            proof {
                assert(self.cells() =~= pre.update(index as int, styled(with_symbol(pre[index as int], g@), style)));
            }
            if width == 2 {
                if let Some(trailing) = self.index_of(column + 1, y) {
                    let ghost pre2 = self.cells();
                    let mut tcell = self.content[trailing].clone();
                    tcell.set_symbol("");
                    tcell.set_style(style);
                    self.content.set(trailing, tcell);
                    proof {
                        reveal_strlit("");
                        assert(""@ =~= Seq::<char>::empty());
                        assert(self.cells() =~= pre2.update(trailing as int, styled(with_symbol(pre2[trailing as int], seq![]), style)));
                    }
                }
            }
            proof {
                assert(self.cells() =~= put_cluster(self.area, pre, column as int, y as int, g@, width as int, style));
            }
            column = column.saturating_add(width);
            used = used.saturating_add(width);
            i = i + 1;
        }
        proof {
            if i == gs@.len() {
                assert(all.skip(i as int) =~= Seq::<Seq<char>>::empty());
            }
        }
        (column, used)
    }

    /// Write a span, returning the next free column and the columns consumed.
    pub fn set_span(&mut self, x: u16, y: u16, span: &Span, max_width: u16) -> (r: (u16, u16))
        requires
            old(self).wf(),
        ensures
            final(self).wf(),
            final(self).area == old(self).area,
            (final(self).cells(), r.0 as int, r.1 as int) == write_clusters(
                old(self).area,
                old(self).cells(),
                grapheme_clusters(span.content@),
                x as int,
                0,
                max_width as int,
                y as int,
                span.style,
            ),
    {
        self.set_stringn(x, y, span.content.as_str(), max_width as usize, span.style)
    }

    /// Write a line, each span over the line's own style, within `max_width`
    /// columns. Returns the next free column and the columns consumed.
    pub fn set_line(&mut self, x: u16, y: u16, line: &Line, max_width: u16) -> (r: (u16, u16))
        requires
            old(self).wf(),
        ensures
            final(self).wf(),
            final(self).area == old(self).area,
            (final(self).cells(), r.0 as int, r.1 as int) == write_spans(
                old(self).area,
                old(self).cells(),
                line.spans@,
                line.style,
                x as int,
                0,
                max_width as int,
                y as int,
            ),
    {
        let ghost target = write_spans(
            self.area,
            self.cells(),
            line.spans@,
            line.style,
            x as int,
            0,
            max_width as int,
            y as int,
        );
        let mut column = x;
        let mut used: u16 = 0;
        let mut k: usize = 0;
        proof {
            assert(line.spans@.skip(0) =~= line.spans@);
        }
        while k < line.spans.len()
            invariant_except_break
                k <= line.spans@.len(),
                self.wf(),
                self.area == old(self).area,
                write_spans(
                    self.area,
                    self.cells(),
                    line.spans@.skip(k as int),
                    line.style,
                    column as int,
                    used as int,
                    max_width as int,
                    y as int,
                ) == target,
            ensures
                self.wf(),
                self.area == old(self).area,
                (self.cells(), column as int, used as int) == target,
            decreases line.spans@.len() - k,
        {
            proof {
                assert(line.spans@.skip(k as int)[0] == line.spans@[k as int]);
                assert(line.spans@.skip(k as int).drop_first() =~= line.spans@.skip(k as int + 1));
            }
            let remaining = max_width.saturating_sub(used);
            if remaining == 0 {
                break;
            }
            let span = &line.spans[k];
            let (next, consumed) = self.set_stringn(
                column,
                y,
                span.content.as_str(),
                remaining as usize,
                line.style.patch(span.style),
            );
            column = next;
            used = used.saturating_add(consumed);
            k = k + 1;
        }
        proof {
            if k == line.spans@.len() {
                assert(line.spans@.skip(k as int) =~= Seq::<Span>::empty());
            }
        }
        (column, used)
    }


    /// The cells that changed between `self` (the previous frame) and `next`,
    /// as `(x, y, cell)` in row-major order. Both frames share origin and width;
    /// the shorter one bounds the walk.
    pub fn diff<'a>(&self, next: &'a Buffer) -> (r: Vec<(u16, u16, &'a Cell)>)
        requires
            self.wf(),
            next.wf(),
            self.area.x == next.area.x,
            self.area.y == next.area.y,
            self.area.width == next.area.width,
        ensures
            ({
                let len = min(self.content@.len() as int, next.content@.len() as int);
                let ds = diff_indices(self.cells(), next.cells(), 0, len);
                &&& r@.len() == ds.len()
                &&& forall|k: int|
                    0 <= k < ds.len() ==> r@[k].0 as int == col_of(next.area, #[trigger] ds[k])
                        && r@[k].1 as int == row_of(next.area, ds[k]) && r@[k].2@ == next.cells()[ds[k]]
            }),
    {
        let len = if self.content.len() <= next.content.len() {
            self.content.len()
        } else {
            next.content.len()
        };
        let ghost prev_cells = self.cells();
        let ghost next_cells = next.cells();
        let ghost total = diff_indices(prev_cells, next_cells, 0, len as int);
        let mut updates: Vec<(u16, u16, &'a Cell)> = Vec::new();
        let ghost mut emitted: Seq<int> = seq![];
        let mut index: usize = 0;
        proof {
            lemma_area_bound(next.area);
        }
        while index < len
            invariant
                len <= self.content@.len(),
                len <= next.content@.len(),
                next.wf(),
                self.wf(),
                len <= 4294836225,
                prev_cells == self.cells(),
                next_cells == next.cells(),
                emitted + diff_indices(prev_cells, next_cells, index as int, len as int) == total,
                updates@.len() == emitted.len(),
                forall|k: int|
                    0 <= k < emitted.len() ==> updates@[k].0 as int == col_of(next.area, #[trigger] emitted[k])
                        && updates@[k].1 as int == row_of(next.area, emitted[k]) && updates@[k].2@
                        == next_cells[emitted[k]] && 0 <= emitted[k] < len,
            decreases steps_left(len as int, index as int),
        {
            let current = &next.content[index];
            let previous = &self.content[index];
            let position = index;
            index = index + 1;
            if current.is_skipped() {
                continue;
            }
            match current.diff_option {
                CellDiffOption::Skip => {},
                CellDiffOption::ForcedWidth(width) => {
                    index = index.saturating_add(width.get().saturating_sub(1) as usize);
                    if !current.same_as(previous) {
                        let (x, y) = next.pos_of(position);
                        updates.push((x, y, current));
                        proof {
                            emitted = emitted.push(position as int);
                            assert(emitted.drop_last() + seq![position as int] + diff_indices(prev_cells, next_cells, index as int, len as int) =~= emitted + diff_indices(prev_cells, next_cells, index as int, len as int));
                        }
                    }
                },
                _ => {
                    let width = current.cell_width() as usize;
                    let unchanged = current.diff_option == CellDiffOption::Compare && current.same_as(previous);
                    if unchanged {
                        index = index + width.saturating_sub(1);
                        continue;
                    }
                    let previous_width = previous.cell_width() as usize;
                    let (x, y) = next.pos_of(position);
                    updates.push((x, y, current));
                    let ghost before = emitted;
                    proof {
                        emitted = emitted.push(position as int);
                    }
                    if width > 1 {
                        index = index + (width - 1);
                        proof {
                            assert(before + seq![position as int] + diff_indices(prev_cells, next_cells, index as int, len as int) =~= emitted + diff_indices(prev_cells, next_cells, index as int, len as int));
                        }
                    } else if previous_width > width && (previous.bg != Color::Reset
                        || !previous.modifier.intersection(Modifier { bits: 376 }).is_empty()) {
                        let end = if position + previous_width <= len {
                            position + previous_width
                        } else {
                            len
                        };
                        let mut trailing = position + 1;
                        while trailing < end
                            invariant
                                position + 1 <= trailing <= end,
                                end <= len,
                                len <= next.content@.len(),
                                next.wf(),
                                next_cells == next.cells(),
                                emitted == before.push(position as int) + unskipped(next_cells, position + 1, trailing as int),
                                updates@.len() == emitted.len(),
                                forall|k: int|
                                    0 <= k < emitted.len() ==> updates@[k].0 as int == col_of(next.area, #[trigger] emitted[k])
                                        && updates@[k].1 as int == row_of(next.area, emitted[k]) && updates@[k].2@
                                        == next_cells[emitted[k]] && 0 <= emitted[k] < len,
                            decreases end - trailing,
                        {
                            if !next.content[trailing].is_skipped() {
                                let (tx, ty) = next.pos_of(trailing);
                                updates.push((tx, ty, &next.content[trailing]));
                                proof {
                                    emitted = emitted.push(trailing as int);
                                }
                            }
                            trailing = trailing + 1;
                        }
                        index = end;
                        proof {
                            assert(before + (seq![position as int] + unskipped(next_cells, position + 1, end as int)) + diff_indices(prev_cells, next_cells, index as int, len as int) =~= emitted + diff_indices(prev_cells, next_cells, index as int, len as int));
                        }
                    } else {
                        proof {
                            assert(before + seq![position as int] + diff_indices(prev_cells, next_cells, index as int, len as int) =~= emitted + diff_indices(prev_cells, next_cells, index as int, len as int));
                        }
                    }
                },
            }
        }
        proof {
            assert(emitted + Seq::<int>::empty() =~= emitted);
        }
        updates
    }


    /// A buffer with one line per row, as wide as the widest line, unstyled
    /// apart from the lines' own styles.
    pub fn with_lines(lines: Vec<Line>) -> (b: Buffer)
        ensures
            b.wf(),
            b.area == (Rect {
                x: 0,
                y: 0,
                width: lines_max_width(lines@) as u16,
                height: (lines@.len() % 65536) as u16,
            }),
            b.cells() == write_lines(
                b.area,
                blank_cells(b.area.spec_area()),
                lines@,
                0,
                lines_max_width(lines@),
            ),
    {
        let height = (lines.len() % 65536) as u16;
        let mut width: u16 = 0;
        let mut i: usize = 0;
        while i < lines.len()
            invariant
                i <= lines@.len(),
                width == lines_max_width(lines@.take(i as int)),
                0 <= width <= u16::MAX,
            decreases lines@.len() - i,
        {
            proof {
                assert(lines@.take(i as int + 1).drop_last() == lines@.take(i as int));
            }
            let w = lines[i].width();
            if w > width {
                width = w;
            }
            i = i + 1;
        }
        proof {
            assert(lines@.take(i as int) == lines@);
        }
        let mut buffer = Buffer::empty(Rect::new(0, 0, width, height));
        proof {
            assert(buffer.cells() =~= Seq::new(buffer.area.spec_area() as nat, |i: int| blank_cell()));
        }
        let ghost start = buffer.cells();
        let mut y: usize = 0;
        while y < lines.len()
            invariant
                y <= lines@.len(),
                buffer.wf(),
                buffer.area == (Rect { x: 0, y: 0, width, height }),
                width == lines_max_width(lines@),
                write_lines(buffer.area, buffer.cells(), lines@, y as int, width as int) == write_lines(
                    buffer.area,
                    start,
                    lines@,
                    0,
                    width as int,
                ),
            decreases lines@.len() - y,
        {
            buffer.set_line(0, (y % 65536) as u16, &lines[y], width);
            y = y + 1;
        }
        buffer
    }

    /// Overlay `other` onto this buffer, growing the area to cover both; cells
    /// of `other` are placed last, so they win where the two overlap.
    pub fn merge(&mut self, other: &Buffer)
        requires
            old(self).wf(),
            other.wf(),
        ensures
            final(self).wf(),
            final(self).area == old(self).area.spec_union(other.area),
            final(self).cells() == placed(
                placed(
                    blank_cells(final(self).area.spec_area()),
                    final(self).area,
                    old(self).area,
                    old(self).cells(),
                    old(self).content@.len() as int,
                ),
                final(self).area,
                other.area,
                other.cells(),
                other.content@.len() as int,
            ),
    {
        let merged = self.area.union(other.area);
        let mut content = Buffer::empty(merged);
        proof {
            assert(content.cells() =~= Seq::new(merged.spec_area() as nat, |i: int| blank_cell()));
        }
        content.place(self, merged);
        content.place(other, merged);
        self.area = merged;
        self.content = content.content;
    }

    /// Copy every cell of `src` that falls inside `merged` to its position.
    fn place(&mut self, src: &Buffer, merged: Rect)
        requires
            old(self).wf(),
            old(self).area == merged,
            src.wf(),
        ensures
            final(self).wf(),
            final(self).area == merged,
            final(self).cells() == placed(old(self).cells(), merged, src.area, src.cells(), src.content@.len() as int),
    {
        let n = src.content.len();
        let mut index: usize = 0;
        proof {
            lemma_area_bound(merged);
        }
        while index < n
            invariant
                index <= n,
                n == src.content@.len(),
                src.wf(),
                self.wf(),
                self.area == merged,
                self.cells() == placed(old(self).cells(), merged, src.area, src.cells(), index as int),
            decreases n - index,
        {
            let (x, y) = src.pos_of(index);
            if merged.contains(Position { x, y }) {
                proof {
                    lemma_flat_index_bounds(merged, x as int, y as int);
                    lemma_area_bound(merged);
                }
                let dx = (x - merged.x) as usize;
                let dy = (y - merged.y) as usize;
                let target = dy * merged.width as usize + dx;
                let ghost pre = self.cells();
                self.content.set(target, src.content[index].clone());
                proof {
                    assert(self.cells() =~= pre.update(target as int, src.cells()[index as int]));
                }
            }
            index = index + 1;
        }
    }

    /// Apply `style` to every cell in `area` (clipped to this buffer), leaving
    /// symbols untouched.
    pub fn set_style(&mut self, area: Rect, style: Style)
        requires
            old(self).wf(),
        ensures
            final(self).wf(),
            final(self).area == old(self).area,
            forall|x: int, y: int|
                old(self).area.holds(x, y) ==> #[trigger] final(self).at(x, y) == if area.holds(
                    x,
                    y,
                ) {
                    styled(old(self).at(x, y), style)
                } else {
                    old(self).at(x, y)
                },
            final(self).cells() == restyled(old(self).area, old(self).cells(), area.spec_intersection(old(self).area), style),
    {
        let target = area.intersection(self.area);
        let ghost old_cells = self.cells();
        let ghost barea = self.area;
        let bottom = target.bottom();
        let right = target.right();
        let mut y = target.y;
        while y < bottom
            invariant
                self.wf(),
                self.area == barea,
                target == area.spec_intersection(barea),
                bottom == target.spec_bottom(),
                right == target.spec_right(),
                target.y <= y,
                old_cells.len() == self.cells().len(),
                forall|i: int|
                    0 <= i < self.cells().len() ==> {
                        let px = col_of(barea, i);
                        let py = row_of(barea, i);
                        #[trigger] self.cells()[i] == if target.holds(px, py) && py < y {
                            styled(old_cells[i], style)
                        } else {
                            old_cells[i]
                        }
                    },
            decreases bottom - y,
        {
            let mut x = target.x;
            while x < right
                invariant
                    self.wf(),
                    self.area == barea,
                    target == area.spec_intersection(barea),
                    bottom == target.spec_bottom(),
                    right == target.spec_right(),
                    target.y <= y < bottom,
                    target.x <= x,
                    old_cells.len() == self.cells().len(),
                    forall|i: int|
                        0 <= i < self.cells().len() ==> {
                            let px = col_of(barea, i);
                            let py = row_of(barea, i);
                            #[trigger] self.cells()[i] == if target.holds(px, py) && (py < y || (
                            py == y && px < x)) {
                                styled(old_cells[i], style)
                            } else {
                                old_cells[i]
                            }
                        },
                decreases right - x,
            {
                if let Some(index) = self.index_of(x, y) {
                    proof {
                        lemma_pos_of_flat(barea, x as int, y as int);
                        assert(self.cells()[index as int] == old_cells[index as int]);
                    }
                    let ghost pre = self.cells();
                    let mut cell = self.content[index].clone();
                    cell.set_style(style);
                    self.content.set(index, cell);
                    proof {
                        assert(self.cells() =~= pre.update(index as int, styled(old_cells[index as int], style)));
                        assert forall|i: int| 0 <= i < self.cells().len() implies {
                            let px = col_of(barea, i);
                            let py = row_of(barea, i);
                            #[trigger] self.cells()[i] == if target.holds(px, py) && (py < y || (
                            py == y && px < x + 1)) {
                                styled(old_cells[i], style)
                            } else {
                                old_cells[i]
                            }
                        } by {
                            if i != index as int {
                                lemma_flat_of_pos(barea, i);
                                assert(!(col_of(barea, i) == x && row_of(barea, i) == y));
                            }
                        }
                    }
                } else {
                    proof {
                        assert(false) by {
                            assert(barea.holds(x as int, y as int));
                        }
                    }
                }
                x = x + 1;
            }
            y = y + 1;
        }
        proof {
            assert(self.cells() =~= restyled(barea, old_cells, target, style));
            assert forall|px: int, py: int| barea.holds(px, py) implies #[trigger] self.at(px, py)
                == if area.holds(px, py) {
                styled(old_cells[flat_index(barea, px, py)], style)
            } else {
                old_cells[flat_index(barea, px, py)]
            } by {
                lemma_flat_index_bounds(barea, px, py);
                lemma_pos_of_flat(barea, px, py);
            }
        }
    }
}


/// `cells` with `style` applied to every cell whose position lies in `target`.
pub open spec fn restyled(area: Rect, cells: Seq<CellView>, target: Rect, style: Style) -> Seq<CellView> {
    Seq::new(
        cells.len(),
        |i: int|
            if target.holds(col_of(area, i), row_of(area, i)) {
                styled(cells[i], style)
            } else {
                cells[i]
            },
    )
}

/// Write one cluster of width `w` at `(column, y)`: the leading cell gets the
/// cluster, a two-column cluster blanks its in-area placeholder, both styled.
pub open spec fn put_cluster(
    area: Rect,
    cells: Seq<CellView>,
    column: int,
    y: int,
    g: Seq<char>,
    w: int,
    style: Style,
) -> Seq<CellView> {
    let i = flat_index(area, column, y);
    let c1 = cells.update(i, styled(with_symbol(cells[i], g), style));
    if w >= 2 && area.holds(column + 1, y) {
        let j = flat_index(area, column + 1, y);
        c1.update(j, styled(with_symbol(c1[j], seq![]), style))
    } else {
        c1
    }
}

/// Lay clusters out left to right from `column` on row `y`: zero-width
/// clusters are dropped, and writing stops at the first cluster that would
/// exceed `limit` columns or fall outside the area. Yields the cells, the next
/// free column and the columns used.
pub open spec fn write_clusters(
    area: Rect,
    cells: Seq<CellView>,
    gs: Seq<Seq<char>>,
    column: int,
    used: int,
    limit: int,
    y: int,
    style: Style,
) -> (Seq<CellView>, int, int)
    decreases gs.len(),
{
    if gs.len() == 0 {
        (cells, column, used)
    } else {
        let w = cluster_cols(gs[0]) as int;
        if w == 0 {
            write_clusters(area, cells, gs.drop_first(), column, used, limit, y, style)
        } else if sat_add(used, w) > limit || column >= area.spec_right() || !area.holds(
            column,
            y,
        ) {
            (cells, column, used)
        } else {
            write_clusters(
                area,
                put_cluster(area, cells, column, y, gs[0], w, style),
                gs.drop_first(),
                sat_add(column, w),
                sat_add(used, w),
                limit,
                y,
                style,
            )
        }
    }
}

/// Lay out a line's spans in turn, each over the line's style and within what
/// remains of `max` columns.
pub open spec fn write_spans(
    area: Rect,
    cells: Seq<CellView>,
    spans: Seq<Span>,
    line_style: Style,
    column: int,
    used: int,
    max: int,
    y: int,
) -> (Seq<CellView>, int, int)
    decreases spans.len(),
{
    if spans.len() == 0 || sat_sub(max, used) == 0 {
        (cells, column, used)
    } else {
        let r = write_clusters(
            area,
            cells,
            grapheme_clusters(spans[0].content@),
            column,
            0,
            sat_sub(max, used),
            y,
            line_style.spec_patch(spans[0].style),
        );
        write_spans(area, r.0, spans.drop_first(), line_style, r.1, sat_add(used, r.2), max, y)
    }
}

pub proof fn lemma_write_clusters_len(
    area: Rect,
    cells: Seq<CellView>,
    gs: Seq<Seq<char>>,
    column: int,
    used: int,
    limit: int,
    y: int,
    style: Style,
)
    requires
        cells.len() == area.spec_area(),
    ensures
        write_clusters(area, cells, gs, column, used, limit, y, style).0.len() == cells.len(),
    decreases gs.len(),
{
    if gs.len() > 0 {
        let w = cluster_cols(gs[0]) as int;
        if w == 0 {
            lemma_write_clusters_len(area, cells, gs.drop_first(), column, used, limit, y, style);
        } else if !(sat_add(used, w) > limit || column >= area.spec_right() || !area.holds(
            column,
            y,
        )) {
            lemma_flat_index_bounds(area, column, y);
            if w >= 2 && area.holds(column + 1, y) {
                lemma_flat_index_bounds(area, column + 1, y);
            }
            lemma_write_clusters_len(
                area,
                put_cluster(area, cells, column, y, gs[0], w, style),
                gs.drop_first(),
                sat_add(column, w),
                sat_add(used, w),
                limit,
                y,
                style,
            );
        }
    }
}

pub proof fn lemma_write_spans_len(
    area: Rect,
    cells: Seq<CellView>,
    spans: Seq<Span>,
    line_style: Style,
    column: int,
    used: int,
    max: int,
    y: int,
)
    requires
        cells.len() == area.spec_area(),
    ensures
        write_spans(area, cells, spans, line_style, column, used, max, y).0.len() == cells.len(),
    decreases spans.len(),
{
    if !(spans.len() == 0 || sat_sub(max, used) == 0) {
        let r = write_clusters(
            area,
            cells,
            grapheme_clusters(spans[0].content@),
            column,
            0,
            sat_sub(max, used),
            y,
            line_style.spec_patch(spans[0].style),
        );
        lemma_write_clusters_len(
            area,
            cells,
            grapheme_clusters(spans[0].content@),
            column,
            0,
            sat_sub(max, used),
            y,
            line_style.spec_patch(spans[0].style),
        );
        lemma_write_spans_len(area, r.0, spans.drop_first(), line_style, r.1, sat_add(used, r.2), max, y);
    }
}


/// `n` blank cells.
pub open spec fn blank_cells(n: int) -> Seq<CellView> {
    Seq::new(n as nat, |i: int| blank_cell())
}

/// Modifiers that stay visible on a blank cell (reversed, underlined, both
/// blinks, crossed out).
pub open spec fn visible_on_blank() -> Modifier {
    Modifier { bits: 376 }
}

/// The non-skipped indices in `from .. end`, ascending.
pub open spec fn unskipped(next: Seq<CellView>, from: int, end: int) -> Seq<int>
    decreases end - from,
{
    if end <= from {
        seq![]
    } else {
        let rest = unskipped(next, from, end - 1);
        if next[end - 1].diff_option == CellDiffOption::Skip {
            rest
        } else {
            rest.push(end - 1)
        }
    }
}

pub open spec fn steps_left(len: int, index: int) -> nat {
    if index < len {
        (len - index) as nat
    } else {
        0
    }
}

/// The indices of `next` that the diff writes, walking from `index`.
///
/// A skipped cell is never written. A forced-width cell is written when it
/// changed and its covered columns are stepped over. Otherwise a cell is
/// written when it changed or asks to always be written; a wide cell covers its
/// placeholder, and a styled wide cell replaced by a narrower one has the
/// columns it used to cover rewritten too.
pub open spec fn diff_indices(prev: Seq<CellView>, next: Seq<CellView>, index: int, len: int) -> Seq<int>
    decreases steps_left(len, index),
{
    if index >= len || index < 0 {
        seq![]
    } else {
        let cur = next[index];
        let p = prev[index];
        match cur.diff_option {
            CellDiffOption::Skip => diff_indices(prev, next, index + 1, len),
            CellDiffOption::ForcedWidth(w) => {
                let rest = diff_indices(prev, next, index + 1 + sat_sub(w.cols() as int, 1), len);
                if cur != p {
                    seq![index] + rest
                } else {
                    rest
                }
            },
            _ => {
                let w = cell_cols(cur);
                if cur.diff_option == CellDiffOption::Compare && cur == p {
                    diff_indices(prev, next, index + 1 + sat_sub(w, 1), len)
                } else {
                    let pw = cell_cols(p);
                    if w > 1 {
                        seq![index] + diff_indices(prev, next, index + w, len)
                    } else if pw > w && (p.bg != Color::Reset || p.modifier.spec_intersection(
                        visible_on_blank(),
                    ).bits != 0) {
                        let end = min(index + pw, len);
                        seq![index] + unskipped(next, index + 1, end) + diff_indices(
                            prev,
                            next,
                            end,
                            len,
                        )
                    } else {
                        seq![index] + diff_indices(prev, next, index + 1, len)
                    }
                }
            },
        }
    }
}

/// The diff of a frame against itself is empty when no cell asks to always be
/// written.
pub proof fn lemma_diff_of_self_is_empty(cells: Seq<CellView>, index: int, len: int)
    requires
        len <= cells.len(),
        forall|i: int| 0 <= i < len ==> #[trigger] cells[i].diff_option != CellDiffOption::AlwaysUpdate,
    ensures
        diff_indices(cells, cells, index, len) == Seq::<int>::empty(),
    decreases steps_left(len, index),
{
    if !(index >= len || index < 0) {
        let cur = cells[index];
        match cur.diff_option {
            CellDiffOption::Skip => lemma_diff_of_self_is_empty(cells, index + 1, len),
            CellDiffOption::ForcedWidth(w) => lemma_diff_of_self_is_empty(
                cells,
                index + 1 + sat_sub(w.cols() as int, 1),
                len,
            ),
            _ => {
                let w = cell_cols(cur);
                lemma_diff_of_self_is_empty(cells, index + 1 + sat_sub(w, 1), len);
            },
        }
    }
}

pub proof fn lemma_unskipped_sound(next: Seq<CellView>, from: int, end: int)
    ensures
        forall|k: int|
            0 <= k < unskipped(next, from, end).len() ==> from <= #[trigger] unskipped(
                next,
                from,
                end,
            )[k] < end && next[unskipped(next, from, end)[k]].diff_option
                != CellDiffOption::Skip,
        forall|a: int, b: int|
            0 <= a < b < unskipped(next, from, end).len() ==> unskipped(next, from, end)[a]
                < unskipped(next, from, end)[b],
    decreases end - from,
{
    if end > from {
        lemma_unskipped_sound(next, from, end - 1);
    }
}

/// Every written index lies at or after `index` and before `len`, names a cell
/// that is not skipped, and the indices come in ascending (row-major) order.
pub proof fn lemma_diff_indices_sound(prev: Seq<CellView>, next: Seq<CellView>, index: int, len: int)
    requires
        len <= next.len(),
    ensures
        forall|k: int|
            0 <= k < diff_indices(prev, next, index, len).len() ==> index <= #[trigger] diff_indices(
                prev,
                next,
                index,
                len,
            )[k] < len && next[diff_indices(prev, next, index, len)[k]].diff_option
                != CellDiffOption::Skip,
        forall|a: int, b: int|
            0 <= a < b < diff_indices(prev, next, index, len).len() ==> diff_indices(
                prev,
                next,
                index,
                len,
            )[a] < diff_indices(prev, next, index, len)[b],
    decreases steps_left(len, index),
{
    if !(index >= len || index < 0) {
        let cur = next[index];
        let p = prev[index];
        match cur.diff_option {
            CellDiffOption::Skip => lemma_diff_indices_sound(prev, next, index + 1, len),
            CellDiffOption::ForcedWidth(w) => lemma_diff_indices_sound(
                prev,
                next,
                index + 1 + sat_sub(w.cols() as int, 1),
                len,
            ),
            _ => {
                let w = cell_cols(cur);
                if cur.diff_option == CellDiffOption::Compare && cur == p {
                    lemma_diff_indices_sound(prev, next, index + 1 + sat_sub(w, 1), len);
                } else {
                    let pw = cell_cols(p);
                    if w > 1 {
                        lemma_diff_indices_sound(prev, next, index + w, len);
                    } else if pw > w && (p.bg != Color::Reset || p.modifier.spec_intersection(
                        visible_on_blank(),
                    ).bits != 0) {
                        let end = min(index + pw, len);
                        lemma_diff_indices_sound(prev, next, end, len);
                        lemma_unskipped_sound(next, index + 1, end);
                        let u = unskipped(next, index + 1, end);
                        let d = diff_indices(prev, next, end, len);
                        let all = seq![index] + u + d;
                        assert(all == diff_indices(prev, next, index, len));
                        assert forall|k: int| 0 <= k < all.len() implies index <= #[trigger] all[k]
                            < len && next[all[k]].diff_option != CellDiffOption::Skip by {
                            if k == 0 {
                            } else if k < 1 + u.len() {
                                assert(all[k] == u[k - 1]);
                            } else {
                                assert(all[k] == d[k - 1 - u.len()]);
                            }
                        }
                        assert forall|a: int, b: int| 0 <= a < b < all.len() implies all[a]
                            < all[b] by {
                            if a == 0 {
                                if b < 1 + u.len() {
                                    assert(all[b] == u[b - 1]);
                                } else {
                                    assert(all[b] == d[b - 1 - u.len()]);
                                }
                            } else if a < 1 + u.len() {
                                assert(all[a] == u[a - 1]);
                                if b < 1 + u.len() {
                                    assert(all[b] == u[b - 1]);
                                } else {
                                    assert(all[b] == d[b - 1 - u.len()]);
                                }
                            } else {
                                assert(all[a] == d[a - 1 - u.len()]);
                                assert(all[b] == d[b - 1 - u.len()]);
                            }
                        }
                    } else {
                        lemma_diff_indices_sound(prev, next, index + 1, len);
                    }
                }
            },
        }
    }
}


/// Copy the first `n` cells of a buffer (area `a`, cells `cs`) into `acc`,
/// which covers `merged`, at their screen positions; cells outside `merged`
/// are dropped.
pub open spec fn placed(acc: Seq<CellView>, merged: Rect, a: Rect, cs: Seq<CellView>, n: int) -> Seq<CellView>
    decreases n,
{
    if n <= 0 {
        acc
    } else {
        let prev = placed(acc, merged, a, cs, n - 1);
        let x = col_of(a, n - 1);
        let y = row_of(a, n - 1);
        if merged.holds(x, y) {
            prev.update(flat_index(merged, x, y), cs[n - 1])
        } else {
            prev
        }
    }
}

pub proof fn lemma_placed_len(acc: Seq<CellView>, merged: Rect, a: Rect, cs: Seq<CellView>, n: int)
    requires
        acc.len() == merged.spec_area(),
    ensures
        placed(acc, merged, a, cs, n).len() == acc.len(),
    decreases n,
{
    if n > 0 {
        lemma_placed_len(acc, merged, a, cs, n - 1);
        let x = col_of(a, n - 1);
        let y = row_of(a, n - 1);
        if merged.holds(x, y) {
            lemma_flat_index_bounds(merged, x, y);
        }
    }
}

/// Lines written top-down from row `i`, each on row `i % 65536` within
/// `width` columns.
pub open spec fn write_lines(area: Rect, cells: Seq<CellView>, lines: Seq<Line>, i: int, width: int) -> Seq<CellView>
    decreases lines.len() - i,
{
    if i >= lines.len() || i < 0 {
        cells
    } else {
        let r = write_spans(area, cells, lines[i].spans@, lines[i].style, 0, 0, width, i % 65536);
        write_lines(area, r.0, lines, i + 1, width)
    }
}

pub open spec fn lines_max_width(lines: Seq<Line>) -> int
    decreases lines.len(),
{
    if lines.len() == 0 {
        0
    } else {
        let rest = lines_max_width(lines.drop_last());
        let w = cap16(crate::text::spans_cols(lines.last().spans@) as int);
        if rest >= w {
            rest
        } else {
            w
        }
    }
}

pub proof fn lemma_area_bound(area: Rect)
    ensures
        area.spec_area() <= 4294836225,
        0 <= area.spec_area(),
{
    assert(area.width * area.height <= 65535 * 65535) by (nonlinear_arith)
        requires
            0 <= area.width <= 65535,
            0 <= area.height <= 65535,
    ;
    assert(0 <= area.width * area.height) by (nonlinear_arith)
        requires
            0 <= area.width,
            0 <= area.height,
    ;
}

pub proof fn lemma_pos_of_flat(area: Rect, x: int, y: int)
    requires
        area.holds(x, y),
    ensures
        col_of(area, flat_index(area, x, y)) == x,
        row_of(area, flat_index(area, x, y)) == y,
{
    let w = area.width as int;
    let dx = x - area.x;
    let dy = y - area.y;
    assert(0 <= dx < w);
    assert(0 <= dy);
    assert((dy * w + dx) % w == dx && (dy * w + dx) / w == dy) by (nonlinear_arith)
        requires
            0 <= dx < w,
            0 <= dy,
    ;
}

pub proof fn lemma_flat_of_pos(area: Rect, i: int)
    requires
        0 <= i < area.spec_area(),
    ensures
        area.holds(col_of(area, i), row_of(area, i)) ==> flat_index(
            area,
            col_of(area, i),
            row_of(area, i),
        ) == i,
{
    let w = area.width as int;
    let h = area.height as int;
    assert(w > 0) by (nonlinear_arith)
        requires
            0 <= i < w * h,
            h >= 0,
    ;
    assert(i / w < h && i % w < w && i == (i / w) * w + i % w && i / w >= 0 && i % w >= 0)
        by (nonlinear_arith)
        requires
            0 <= i < w * h,
            w > 0,
    ;
}

} // verus!
