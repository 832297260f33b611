//! Selectable lists: the persisted selection states and the list view.

use vstd::prelude::*;
use crate::event::{Event, InputOutcome, Key, KeyCode, MouseButton, MouseKind};
use crate::buffer::{CellView, flat_index, restyled};
use crate::chars::sat_usize;
use crate::geometry::{Rect, Size, sat_add, sat_sub};
use crate::style::{Modifier, Style, Theme};
use crate::surface::{Surface, paint_cell, set_cell, write_runs};
use crate::text::{Line, Span, spans_cols};
use crate::view::RenderCtx;
use crate::width::cap16;
use super::text::line_width;
use super::window::{Scrollbar, SelectionAnchor, VirtualWindow, scrollbar_cell, spec_anchor_window, spec_keeping, thumb};

verus! {

/// Optional navigation aliases for [`SelectState`].
#[derive(Clone, Copy, Debug, PartialEq, Eq, Structural)]
pub struct SelectNavigation {
    /// `j` / `k` as Down / Up.
    pub vim: bool,
    /// Ctrl+N / Ctrl+P as Down / Up.
    pub ctrl_n_p: bool,
    /// Tab / Shift+Tab as Down / Up.
    pub tab: bool,
    /// `1`..`9` activate the matching row.
    pub numeric: bool,
}

impl SelectNavigation {
    /// Every common picker alias enabled.
    pub fn common() -> (n: SelectNavigation)
        ensures
            n == (SelectNavigation { vim: true, ctrl_n_p: true, tab: true, numeric: true }),
    {
        SelectNavigation { vim: true, ctrl_n_p: true, tab: true, numeric: true }
    }
}

impl Default for SelectNavigation {
    /// No aliases: arrows, Enter and Esc only.
    fn default() -> (n: SelectNavigation)
        ensures
            n == (SelectNavigation { vim: false, ctrl_n_p: false, tab: false, numeric: false }),
    {
        SelectNavigation { vim: false, ctrl_n_p: false, tab: false, numeric: false }
    }
}

/// Outcome of a move: Changed unless the selection stayed the same.
pub open spec fn moved_to(before: Option<usize>, after: Option<usize>) -> (Option<usize>, InputOutcome) {
    (after, if after == before { InputOutcome::Consumed } else { InputOutcome::Changed })
}

/// One row up, wrapping from the top (or from nothing) to the last row.
pub open spec fn spec_step_up(sel: Option<usize>, len: int) -> (Option<usize>, InputOutcome) {
    moved_to(sel, Some((match sel {
        Some(s) => if s > 0 && s < len { s - 1 } else { len - 1 },
        None => len - 1,
    }) as usize))
}

/// One row down, wrapping from the bottom (or from nothing) to the first row.
pub open spec fn spec_step_down(sel: Option<usize>, len: int) -> (Option<usize>, InputOutcome) {
    moved_to(sel, Some((match sel {
        Some(s) => if s < len - 1 { s + 1 } else { 0 },
        None => 0,
    }) as usize))
}

/// What a key press does to the selection of a `len`-row list.
pub open spec fn spec_select_key(sel: Option<usize>, k: Key, len: int, nav: SelectNavigation) -> (Option<usize>, InputOutcome) {
    if nav.ctrl_n_p && k.ctrl && !k.alt && !k.shift {
        match k.code {
            KeyCode::Char(c) => if c == 'n' {
                spec_step_down(sel, len)
            } else if c == 'p' {
                spec_step_up(sel, len)
            } else {
                (sel, InputOutcome::Ignored)
            },
            _ => (sel, InputOutcome::Ignored),
        }
    } else if !k.spec_plain() {
        (sel, InputOutcome::Ignored)
    } else {
        match k.code {
            KeyCode::Up => spec_step_up(sel, len),
            KeyCode::Down => spec_step_down(sel, len),
            KeyCode::Char(c) => if c == 'k' && nav.vim {
                spec_step_up(sel, len)
            } else if c == 'j' && nav.vim {
                spec_step_down(sel, len)
            } else if nav.numeric && '1' <= c && c <= '9' {
                let index = (c as int) - ('1' as int);
                if index < len { (Some(index as usize), InputOutcome::Submitted) } else { (sel, InputOutcome::Ignored) }
            } else {
                (sel, InputOutcome::Ignored)
            },
            KeyCode::Tab => if nav.tab { spec_step_down(sel, len) } else { (sel, InputOutcome::Ignored) },
            KeyCode::BackTab => if nav.tab { spec_step_up(sel, len) } else { (sel, InputOutcome::Ignored) },
            KeyCode::Enter => if sel.is_some() { (sel, InputOutcome::Submitted) } else { (sel, InputOutcome::Ignored) },
            KeyCode::Esc => (sel, InputOutcome::Cancelled),
            _ => (sel, InputOutcome::Ignored),
        }
    }
}

/// What an event does to the selection of a `len`-row list.
pub open spec fn spec_select_event(sel: Option<usize>, event: Event, len: int, nav: SelectNavigation) -> (Option<usize>, InputOutcome) {
    if len == 0 {
        (sel, InputOutcome::Ignored)
    } else {
        match event {
            Event::Key(k) => spec_select_key(sel, k, len, nav),
            _ => (sel, InputOutcome::Ignored),
        }
    }
}

/// What a click does: a plain left press inside `bounds` selects and submits
/// the row under it (counting from `first_visible`), if that row exists.
pub open spec fn spec_select_click(sel: Option<usize>, event: Event, len: int, bounds: Rect, first_visible: int) -> (Option<usize>, InputOutcome) {
    match event {
        Event::Mouse(m) => if m.spec_plain() && m.kind == MouseKind::Down(MouseButton::Left) && bounds.holds(m.column as int, m.row as int) {
            let index = sat_add_usize(first_visible, m.row - bounds.y);
            if index < len { (Some(index as usize), InputOutcome::Submitted) } else { (sel, InputOutcome::Ignored) }
        } else {
            (sel, InputOutcome::Ignored)
        },
        _ => (sel, InputOutcome::Ignored),
    }
}

pub open spec fn sat_add_usize(a: int, b: int) -> int {
    if a + b > usize::MAX { usize::MAX as int } else { a + b }
}

/// The selection kept in range: cleared for an empty list, pulled back to the
/// last row when past it.
pub open spec fn spec_clamp(sel: Option<usize>, len: int) -> Option<usize> {
    if len == 0 {
        None
    } else {
        match sel {
            Some(s) => if s >= len { Some((len - 1) as usize) } else { Some(s) },
            None => None,
        }
    }
}

/// Persisted optional highlighted row of one list.
#[derive(Clone, Copy, Debug)]
pub struct SelectState {
    pub selected: Option<usize>,
}

impl SelectState {
    /// The first row highlighted.
    pub fn new() -> (s: SelectState)
        ensures
            s.selected == Some(0usize),
    {
        SelectState { selected: Some(0) }
    }

    /// No row highlighted.
    pub fn unselected() -> (s: SelectState)
        ensures
            s.selected.is_none(),
    {
        SelectState { selected: None }
    }

    /// The highlighted row, if any.
    pub fn selected(&self) -> (r: Option<usize>)
        ensures
            r == self.selected,
    {
        self.selected
    }

    /// Set or clear the highlighted row.
    pub fn select(&mut self, index: Option<usize>)
        ensures
            final(self).selected == index,
    {
        self.selected = index;
    }

    /// Keep the highlight in range as the list length changes.
    pub fn clamp(&mut self, len: usize)
        ensures
            final(self).selected == spec_clamp(old(self).selected, len as int),
    {
        if len == 0 {
            self.selected = None;
        } else {
            match self.selected {
                Some(s) => {
                    if s >= len {
                        self.selected = Some(len - 1);
                    }
                },
                None => {},
            }
        }
    }

    /// One row up, holding at the top.
    pub fn move_up(&mut self)
        ensures
            final(self).selected == match old(self).selected {
                Some(s) => Some(sat_sub(s as int, 1) as usize),
                None => None,
            },
    {
        if let Some(s) = self.selected {
            self.selected = Some(s.saturating_sub(1));
        }
    }

    /// One row down, holding at the last of `len` rows.
    pub fn move_down(&mut self, len: usize)
        ensures
            final(self).selected == if len == 0 {
                None
            } else {
                match old(self).selected {
                    Some(s) => Some((if s + 1 < len - 1 { s + 1 } else { len - 1 }) as usize),
                    None => None,
                }
            },
    {
        if len == 0 {
            self.selected = None;
        } else if let Some(s) = self.selected {
            let next = s.saturating_add(1);
            self.selected = Some(if next < len - 1 { next } else { len - 1 });
        }
    }

    fn step_up(&mut self, len: usize) -> (r: InputOutcome)
        requires
            len > 0,
        ensures
            (final(self).selected, r) == spec_step_up(old(self).selected, len as int),
    {
        let before = self.selected;
        self.selected = Some(match self.selected {
            Some(s) => if s > 0 && s < len { s - 1 } else { len - 1 },
            None => len - 1,
        });
        if self.selected == before {
            InputOutcome::Consumed
        } else {
            InputOutcome::Changed
        }
    }

    fn step_down(&mut self, len: usize) -> (r: InputOutcome)
        requires
            len > 0,
        ensures
            (final(self).selected, r) == spec_step_down(old(self).selected, len as int),
    {
        let before = self.selected;
        self.selected = Some(match self.selected {
            Some(s) => if s < len - 1 { s + 1 } else { 0 },
            None => 0,
        });
        if self.selected == before {
            InputOutcome::Consumed
        } else {
            InputOutcome::Changed
        }
    }

    /// Arrows navigate (wrapping), Enter submits, Esc cancels.
    pub fn handle(&mut self, event: &Event, len: usize) -> (r: InputOutcome)
        ensures
            (final(self).selected, r) == spec_select_event(old(self).selected, *event, len as int, SelectNavigation {
                vim: false,
                ctrl_n_p: false,
                tab: false,
                numeric: false,
            }),
    {
        self.handle_with(event, len, SelectNavigation::default())
    }

    /// Navigate with the aliases `navigation` enables.
    pub fn handle_with(&mut self, event: &Event, len: usize, navigation: SelectNavigation) -> (r: InputOutcome)
        ensures
            (final(self).selected, r) == spec_select_event(old(self).selected, *event, len as int, navigation),
    {
        if len == 0 {
            return InputOutcome::Ignored;
        }
        let k = match event {
            Event::Key(k) => k,
            _ => {
                return InputOutcome::Ignored;
            },
        };
        if navigation.ctrl_n_p && k.ctrl && !k.alt && !k.shift {
            return match k.code {
                KeyCode::Char(c) => {
                    if c == 'n' {
                        self.step_down(len)
                    } else if c == 'p' {
                        self.step_up(len)
                    } else {
                        InputOutcome::Ignored
                    }
                },
                _ => InputOutcome::Ignored,
            };
        }
        if !k.plain() {
            return InputOutcome::Ignored;
        }
        match k.code {
            KeyCode::Up => self.step_up(len),
            KeyCode::Down => self.step_down(len),
            KeyCode::Char(c) => {
                if c == 'k' && navigation.vim {
                    self.step_up(len)
                } else if c == 'j' && navigation.vim {
                    self.step_down(len)
                } else if navigation.numeric && '1' <= c && c <= '9' {
                    let index = (c as u32 - '1' as u32) as usize;
                    if index < len {
                        self.selected = Some(index);
                        InputOutcome::Submitted
                    } else {
                        InputOutcome::Ignored
                    }
                } else {
                    InputOutcome::Ignored
                }
            },
            KeyCode::Tab => if navigation.tab { self.step_down(len) } else { InputOutcome::Ignored },
            KeyCode::BackTab => if navigation.tab { self.step_up(len) } else { InputOutcome::Ignored },
            KeyCode::Enter => if self.selected.is_some() { InputOutcome::Submitted } else { InputOutcome::Ignored },
            KeyCode::Esc => InputOutcome::Cancelled,
            _ => InputOutcome::Ignored,
        }
    }

    /// Select and submit the row under a plain left click inside `bounds`,
    /// where `first_visible` is the row drawn at the top of `bounds`.
    pub fn handle_mouse(&mut self, event: &Event, len: usize, bounds: Rect, first_visible: usize) -> (r: InputOutcome)
        ensures
            (final(self).selected, r) == spec_select_click(old(self).selected, *event, len as int, bounds, first_visible as int),
    {
        let mouse = match event {
            Event::Mouse(m) => m,
            _ => {
                return InputOutcome::Ignored;
            },
        };
        if !mouse.plain() || mouse.kind != MouseKind::Down(MouseButton::Left) || mouse.column < bounds.x
            || mouse.column >= bounds.right() || mouse.row < bounds.y || mouse.row >= bounds.bottom() {
            return InputOutcome::Ignored;
        }
        let index = first_visible.saturating_add((mouse.row - bounds.y) as usize);
        if index >= len {
            return InputOutcome::Ignored;
        }
        self.selected = Some(index);
        InputOutcome::Submitted
    }
}

impl Default for SelectState {
    fn default() -> (s: SelectState)
        ensures
            s.selected == Some(0usize),
    {
        SelectState::new()
    }
}

/// Selection plus a window start that moves only when the selection crosses
/// an edge.
#[derive(Clone, Copy, Debug)]
pub struct SelectViewportState {
    pub selection: SelectState,
    pub offset: usize,
    pub follow_selection: bool,
}

/// What `resolve` does: clamp the selection, then keep the window where it
/// was, scrolling just enough to show the selection when following it.
pub open spec fn spec_resolve(s: SelectViewportState, len: int, visible: int) -> (SelectViewportState, VirtualWindow) {
    let sel = spec_clamp(s.selection.selected, len);
    let anchor = if s.follow_selection { sel } else { None };
    let w = spec_keeping(len, visible, s.offset as int, anchor);
    (SelectViewportState { selection: SelectState { selected: sel }, offset: w.start, ..s }, w)
}

impl SelectViewportState {
    /// First row selected, window at the top.
    pub fn new() -> (s: SelectViewportState)
        ensures
            s.selection.selected == Some(0usize),
            s.offset == 0,
            s.follow_selection,
    {
        SelectViewportState { selection: SelectState { selected: Some(0) }, offset: 0, follow_selection: true }
    }

    /// Nothing selected, window at the top.
    pub fn unselected() -> (s: SelectViewportState)
        ensures
            s.selection.selected.is_none(),
            s.offset == 0,
            s.follow_selection,
    {
        SelectViewportState { selection: SelectState { selected: None }, offset: 0, follow_selection: true }
    }

    /// The selection state, as a list draws it.
    pub fn selection(&self) -> (r: &SelectState)
        ensures
            *r == self.selection,
    {
        &self.selection
    }

    /// The selected row.
    pub fn selected(&self) -> (r: Option<usize>)
        ensures
            r == self.selection.selected,
    {
        self.selection.selected()
    }

    /// Select or clear a row; the next resolve scrolls it into view.
    pub fn select(&mut self, index: Option<usize>)
        ensures
            final(self).selection.selected == index,
            final(self).offset == old(self).offset,
            final(self).follow_selection,
    {
        self.selection.select(index);
        self.follow_selection = true;
    }

    /// First visible row.
    pub fn offset(&self) -> (r: usize)
        ensures
            r == self.offset,
    {
        self.offset
    }

    /// Put the window's first row at `offset` and stop following the selection.
    pub fn set_offset(&mut self, offset: usize)
        ensures
            final(self).selection == old(self).selection,
            final(self).offset == offset,
            !final(self).follow_selection,
    {
        self.offset = offset;
        self.follow_selection = false;
    }

    /// Reconcile collection size, viewport, selection and window start; the
    /// window returned is the one to draw and to hit-test against.
    pub fn resolve(&mut self, len: usize, visible: usize) -> (w: VirtualWindow)
        ensures
            (*final(self), w) == spec_resolve(*old(self), len as int, visible as int),
    {
        self.selection.clamp(len);
        let anchor = if self.follow_selection { self.selection.selected } else { None };
        let window = VirtualWindow::keeping(len, visible, self.offset, anchor);
        self.offset = window.start;
        window
    }

    /// Navigate with arrows, Enter and Esc, and scroll with the wheel.
    pub fn handle(&mut self, event: &Event, len: usize, viewport_rows: usize) -> (r: InputOutcome)
        ensures
            (*final(self), r) == spec_viewport_event(*old(self), *event, len as int, viewport_rows as int, SelectNavigation {
                vim: false,
                ctrl_n_p: false,
                tab: false,
                numeric: false,
            }),
    {
        self.handle_with(event, len, viewport_rows, SelectNavigation::default())
    }

    /// Navigate with the aliases `navigation` enables; the wheel scrolls the
    /// window by three rows without moving the selection.
    pub fn handle_with(&mut self, event: &Event, len: usize, viewport_rows: usize, navigation: SelectNavigation) -> (r: InputOutcome)
        ensures
            (*final(self), r) == spec_viewport_event(*old(self), *event, len as int, viewport_rows as int, navigation),
    {
        let before = self.resolve(len, viewport_rows);
        if let Event::Mouse(mouse) = event {
            match mouse.kind {
                MouseKind::ScrollUp => {
                    self.offset = self.offset.saturating_sub(3);
                },
                MouseKind::ScrollDown => {
                    let down = self.offset.saturating_add(3);
                    let max = before.max_start();
                    self.offset = if down <= max { down } else { max };
                },
                _ => {
                    return InputOutcome::Ignored;
                },
            }
            self.follow_selection = false;
            return if self.offset == before.start { InputOutcome::Consumed } else { InputOutcome::Changed };
        }
        let outcome = self.selection.handle_with(event, len, navigation);
        match outcome {
            InputOutcome::Changed | InputOutcome::Submitted => {
                self.follow_selection = true;
                let _ = self.resolve(len, viewport_rows);
            },
            _ => {},
        }
        outcome
    }

    /// Select a clicked row of the exact window that was drawn in `bounds`.
    pub fn handle_mouse(&mut self, event: &Event, len: usize, bounds: Rect, window: VirtualWindow) -> (r: InputOutcome)
        ensures
            ({
                let c = spec_select_click(old(self).selection.selected, *event, len as int, bounds, window.start as int);
                let picked = SelectViewportState {
                    selection: SelectState { selected: c.0 },
                    offset: window.start,
                    follow_selection: true,
                };
                &&& r == c.1
                &&& c.1 == InputOutcome::Submitted ==> *final(self) == spec_resolve(picked, len as int, window.len as int).0
                &&& c.1 != InputOutcome::Submitted ==> *final(self) == (SelectViewportState { selection: SelectState { selected: c.0 }, ..*old(self) })
            }),
    {
        let outcome = self.selection.handle_mouse(event, len, bounds, window.start);
        if outcome == InputOutcome::Submitted {
            self.offset = window.start;
            self.follow_selection = true;
            let _ = self.resolve(len, window.len);
        }
        outcome
    }
}

/// What an event does to a viewport state.
pub open spec fn spec_viewport_event(s: SelectViewportState, event: Event, len: int, rows: int, nav: SelectNavigation) -> (SelectViewportState, InputOutcome) {
    let (s1, before) = spec_resolve(s, len, rows);
    match event {
        Event::Mouse(m) => match m.kind {
            MouseKind::ScrollUp => {
                let off = sat_sub(s1.offset as int, 3);
                (SelectViewportState { offset: off as usize, follow_selection: false, ..s1 },
                 if off == before.start { InputOutcome::Consumed } else { InputOutcome::Changed })
            },
            MouseKind::ScrollDown => {
                let down = sat_add_usize(s1.offset as int, 3);
                let max = sat_sub(before.total as int, before.len as int);
                let off = if down <= max { down } else { max };
                (SelectViewportState { offset: off as usize, follow_selection: false, ..s1 },
                 if off == before.start { InputOutcome::Consumed } else { InputOutcome::Changed })
            },
            _ => (s1, InputOutcome::Ignored),
        },
        _ => {
            let (sel, out) = spec_select_event(s1.selection.selected, event, len, nav);
            let s2 = SelectViewportState { selection: SelectState { selected: sel }, ..s1 };
            if out == InputOutcome::Changed || out == InputOutcome::Submitted {
                (spec_resolve(SelectViewportState { follow_selection: true, ..s2 }, len, rows).0, out)
            } else {
                (s2, out)
            }
        },
    }
}

impl Default for SelectViewportState {
    fn default() -> (s: SelectViewportState)
        ensures
            s.selection.selected == Some(0usize),
            s.offset == 0,
            s.follow_selection,
    {
        SelectViewportState::new()
    }
}

/// Strictly ascending.
pub open spec fn ascending(v: Seq<usize>) -> bool {
    forall|i: int, j: int| 0 <= i < j < v.len() ==> v[i] < v[j]
}

/// Cursor plus the set of checked rows, kept in ascending order.
#[derive(Clone, Debug)]
pub struct MultiSelectState {
    pub cursor: SelectState,
    pub checked: Vec<usize>,
}

impl MultiSelectState {
    pub open spec fn wf(&self) -> bool {
        ascending(self.checked@)
    }

    /// The checked rows as a set.
    pub open spec fn checked_set(&self) -> Set<usize> {
        self.checked@.to_set()
    }

    /// First row highlighted, nothing checked.
    pub fn new() -> (s: MultiSelectState)
        ensures
            s.wf(),
            s.cursor.selected == Some(0usize),
            s.checked@.len() == 0,
    {
        MultiSelectState { cursor: SelectState::new(), checked: Vec::new() }
    }

    /// The cursor, as a list draws it.
    pub fn cursor(&self) -> (r: &SelectState)
        ensures
            *r == self.cursor,
    {
        &self.cursor
    }

    /// The cursor, for direct host control.
    pub fn cursor_mut(&mut self) -> (r: &mut SelectState)
        ensures
            *r == old(self).cursor,
            final(self).cursor == *final(r),
            final(self).checked == old(self).checked,
    {
        &mut self.cursor
    }

    /// Whether row `index` is checked.
    pub fn contains(&self, index: usize) -> (b: bool)
        ensures
            b == self.checked@.contains(index),
    {
        let mut i: usize = 0;
        while i < self.checked.len()
            invariant
                i <= self.checked@.len(),
                forall|j: int| 0 <= j < i ==> self.checked@[j] != index,
            decreases self.checked@.len() - i,
        {
            if self.checked[i] == index {
                return true;
            }
            i = i + 1;
        }
        false
    }

    /// The checked rows, ascending.
    pub fn selected(&self) -> (v: Vec<usize>)
        ensures
            v@ == self.checked@,
    {
        self.checked.clone()
    }

    /// Uncheck everything.
    pub fn clear(&mut self)
        ensures
            final(self).wf(),
            final(self).checked@.len() == 0,
            final(self).cursor == old(self).cursor,
    {
        self.checked = Vec::new();
    }

    /// Flip whether `index` is checked.
    pub fn toggle(&mut self, index: usize)
        requires
            old(self).wf(),
        ensures
            final(self).wf(),
            final(self).cursor == old(self).cursor,
            final(self).checked_set() == if old(self).checked@.contains(index) {
                old(self).checked_set().remove(index)
            } else {
                old(self).checked_set().insert(index)
            },
    {
        let mut i: usize = 0;
        while i < self.checked.len() && self.checked[i] < index
            invariant
                i <= self.checked@.len(),
                forall|j: int| 0 <= j < i ==> self.checked@[j] < index,
            decreases self.checked@.len() - i,
        {
            i = i + 1;
        }
        let ghost before = self.checked@;
        if i < self.checked.len() && self.checked[i] == index {
            self.checked.remove(i);
            proof {
                assert(self.checked@ =~= before.remove(i as int));
                assert forall|x: usize| self.checked@.to_set().contains(x) == before.to_set().remove(index).contains(x) by {
                    if self.checked@.contains(x) {
                        let k = choose|k: int| 0 <= k < self.checked@.len() && self.checked@[k] == x;
                        if k < i { assert(self.checked@[k] == before[k]); } else { assert(self.checked@[k] == before[k + 1]); }
                    }
                    if x != index && before.contains(x) {
                        let k = choose|k: int| 0 <= k < before.len() && before[k] == x;
                        if k < i { assert(self.checked@[k] == x); } else if k > i { assert(self.checked@[k - 1] == x); }
                    }
                }
                assert(self.checked@.to_set() =~= before.to_set().remove(index));
            }
        } else {
            self.checked.insert(i, index);
            proof {
                assert(!before.contains(index)) by {
                    if before.contains(index) {
                        let k = choose|k: int| 0 <= k < before.len() && before[k] == index;
                        if k < i { assert(before[k] < index); } else { assert(before[i as int] <= before[k]); }
                    }
                }
                assert(self.checked@ =~= before.insert(i as int, index));
                assert forall|x: usize| self.checked@.to_set().contains(x) == before.to_set().insert(index).contains(x) by {
                    if self.checked@.contains(x) {
                        let k = choose|k: int| 0 <= k < self.checked@.len() && self.checked@[k] == x;
                        if k < i { assert(self.checked@[k] == before[k]); } else if k > i { assert(self.checked@[k] == before[k - 1]); }
                    }
                    if before.contains(x) {
                        let k = choose|k: int| 0 <= k < before.len() && before[k] == x;
                        if k < i { assert(self.checked@[k] == x); } else { assert(self.checked@[k + 1] == x); }
                    }
                    if x == index {
                        assert(self.checked@[i as int] == x);
                    }
                }
                assert(self.checked@.to_set() =~= before.to_set().insert(index));
            }
        }
    }

    fn toggle_cursor(&mut self, len: usize) -> (r: InputOutcome)
        requires
            old(self).wf(),
        ensures
            final(self).wf(),
            final(self).cursor.selected == spec_clamp(old(self).cursor.selected, len as int),
            match spec_clamp(old(self).cursor.selected, len as int) {
                Some(i) => r == InputOutcome::Changed && final(self).checked_set() == toggled(old(self).checked_set(), i),
                None => r == InputOutcome::Ignored && final(self).checked == old(self).checked,
            },
    {
        self.cursor.clamp(len);
        match self.cursor.selected {
            Some(index) => {
                self.toggle(index);
                InputOutcome::Changed
            },
            None => InputOutcome::Ignored,
        }
    }

    /// Space toggles the cursor row; Enter (or a numeric shortcut) toggles the
    /// row it lands on; other keys navigate as a single-select list.
    pub fn handle(&mut self, event: &Event, len: usize, navigation: SelectNavigation) -> (r: InputOutcome)
        requires
            old(self).wf(),
        ensures
            final(self).wf(),
            ({
                let is_space = match *event {
                    Event::Key(k) => k.spec_plain() && k.code == KeyCode::Char(' '),
                    _ => false,
                };
                let (sel, out) = spec_select_event(old(self).cursor.selected, *event, len as int, navigation);
                if is_space {
                    final(self).cursor.selected == spec_clamp(old(self).cursor.selected, len as int)
                        && match spec_clamp(old(self).cursor.selected, len as int) {
                            Some(i) => r == InputOutcome::Changed && final(self).checked_set() == toggled(old(self).checked_set(), i),
                            None => r == InputOutcome::Ignored && final(self).checked == old(self).checked,
                        }
                } else if out == InputOutcome::Submitted {
                    final(self).cursor.selected == sel && match sel {
                        Some(i) => r == InputOutcome::Changed && final(self).checked_set() == toggled(old(self).checked_set(), i),
                        None => r == InputOutcome::Ignored && final(self).checked == old(self).checked,
                    }
                } else {
                    final(self).cursor.selected == sel && r == out && final(self).checked == old(self).checked
                }
            }),
    {
        if let Event::Key(key) = event {
            if key.plain() && key.code == KeyCode::Char(' ') {
                return self.toggle_cursor(len);
            }
        }
        let outcome = self.cursor.handle_with(event, len, navigation);
        if outcome == InputOutcome::Submitted {
            match self.cursor.selected {
                Some(index) => {
                    self.toggle(index);
                    InputOutcome::Changed
                },
                None => InputOutcome::Ignored,
            }
        } else {
            outcome
        }
    }

    /// A plain left click toggles the visible row under it.
    pub fn handle_mouse(&mut self, event: &Event, len: usize, bounds: Rect, first_visible: usize) -> (r: InputOutcome)
        requires
            old(self).wf(),
        ensures
            final(self).wf(),
            ({
                let (sel, out) = spec_select_click(old(self).cursor.selected, *event, len as int, bounds, first_visible as int);
                &&& final(self).cursor.selected == sel
                &&& out == InputOutcome::Submitted ==> match sel {
                    Some(i) => r == InputOutcome::Changed && final(self).checked_set() == toggled(old(self).checked_set(), i),
                    None => r == InputOutcome::Ignored,
                }
                &&& out != InputOutcome::Submitted ==> r == out && final(self).checked == old(self).checked
            }),
    {
        let outcome = self.cursor.handle_mouse(event, len, bounds, first_visible);
        if outcome == InputOutcome::Submitted {
            match self.cursor.selected {
                Some(index) => {
                    self.toggle(index);
                    InputOutcome::Changed
                },
                None => InputOutcome::Ignored,
            }
        } else {
            outcome
        }
    }
}

/// `set` with `i` flipped.
pub open spec fn toggled(set: Set<usize>, i: usize) -> Set<usize> {
    if set.contains(i) { set.remove(i) } else { set.insert(i) }
}

impl Default for MultiSelectState {
    fn default() -> (s: MultiSelectState)
        ensures
            s.wf(),
            s.cursor.selected == Some(0usize),
            s.checked@.len() == 0,
    {
        MultiSelectState::new()
    }
}

/// A list of lines with the selected row highlighted and marked by a caret;
/// windowed around the selection when taller than its viewport.
pub struct SelectList {
    pub items: Vec<Line>,
    pub source_window: Option<VirtualWindow>,
    pub selected: Option<usize>,
    pub viewport: Option<u16>,
    pub visible_window: Option<VirtualWindow>,
    pub scrollbar: bool,
    pub selection_style: Option<Style>,
    pub selection_anchor: SelectionAnchor,
}

/// The rows a list shows given its settings and the rows available.
pub open spec fn spec_list_window(l: SelectList, available_rows: Option<u16>) -> VirtualWindow {
    let a = match l.viewport { Some(v) => v as int, None => usize::MAX as int };
    let b = match available_rows { Some(v) => v as int, None => usize::MAX as int };
    let visible = if a <= b { a } else { b };
    match l.visible_window {
        Some(w) => VirtualWindow { total: w.total, len: (if w.len <= visible { w.len as int } else { visible }) as usize, start: w.start },
        None => match l.source_window {
            Some(src) => {
                let len = if src.len <= visible { src.len as int } else { visible };
                if len == src.len {
                    src
                } else {
                    let sel = match l.selected { Some(x) => x as int, None => src.start as int };
                    let centered = sat_sub(sel, len / 2);
                    let end = if src.start + src.len > usize::MAX { usize::MAX as int } else { src.start + src.len };
                    let max_start = sat_sub(end, len);
                    let start = if centered < src.start { src.start as int } else if centered > max_start { max_start } else { centered };
                    VirtualWindow { total: src.total, len: len as usize, start: start as usize }
                }
            },
            None => spec_anchor_window(l.selection_anchor, l.items@.len() as int, visible, l.selected),
        },
    }
}

impl SelectList {
    /// A list of `items` with `state`'s row highlighted.
    pub fn new(items: Vec<Line>, state: &SelectState) -> (l: SelectList)
        ensures
            l.items == items,
            l.source_window.is_none(),
            l.selected == state.selected,
            l.viewport.is_none(),
            l.visible_window.is_none(),
            l.scrollbar,
            l.selection_style.is_none(),
            l.selection_anchor == SelectionAnchor::Center,
    {
        SelectList {
            items,
            source_window: None,
            selected: state.selected,
            viewport: None,
            visible_window: None,
            scrollbar: true,
            selection_style: None,
            selection_anchor: SelectionAnchor::Center,
        }
    }

    /// A list holding only the rows of `window` (in order); selection and
    /// scrollbar still refer to the whole collection.
    pub fn windowed(items: Vec<Line>, window: VirtualWindow, state: &SelectState) -> (l: SelectList)
        ensures
            l.items == items,
            l.source_window == Some(window),
            l.selected == state.selected,
            l.viewport.is_none(),
            l.visible_window.is_none(),
            l.scrollbar,
            l.selection_style.is_none(),
            l.selection_anchor == SelectionAnchor::Center,
    {
        SelectList {
            items,
            source_window: Some(window),
            selected: state.selected,
            viewport: None,
            visible_window: None,
            scrollbar: true,
            selection_style: None,
            selection_anchor: SelectionAnchor::Center,
        }
    }

    /// Show at most `rows` rows (at least one).
    pub fn viewport(self, rows: u16) -> (l: SelectList)
        ensures
            l == (SelectList { viewport: Some(if rows >= 1 { rows } else { 1u16 }), ..self }),
    {
        SelectList { viewport: Some(if rows >= 1 { rows } else { 1 }), ..self }
    }

    /// Draw exactly this resolved window of the full collection.
    pub fn visible_window(self, window: VirtualWindow) -> (l: SelectList)
        ensures
            l == (SelectList { visible_window: Some(window), ..self }),
    {
        SelectList { visible_window: Some(window), ..self }
    }

    /// Whether to draw the overflow scrollbar.
    pub fn scrollbar(self, show: bool) -> (l: SelectList)
        ensures
            l == (SelectList { scrollbar: show, ..self }),
    {
        SelectList { scrollbar: show, ..self }
    }

    /// Override the selected row's style.
    pub fn selection_style(self, style: Style) -> (l: SelectList)
        ensures
            l == (SelectList { selection_style: Some(style), ..self }),
    {
        SelectList { selection_style: Some(style), ..self }
    }

    /// How the list windows itself around the selection.
    pub fn selection_anchor(self, anchor: SelectionAnchor) -> (l: SelectList)
        ensures
            l == (SelectList { selection_anchor: anchor, ..self }),
    {
        SelectList { selection_anchor: anchor, ..self }
    }

    /// The rows shown when `available_rows` rows are available (`None`: any).
    pub fn window(&self, available_rows: Option<u16>) -> (w: VirtualWindow)
        ensures
            w == spec_list_window(*self, available_rows),
    {
        let a: usize = match self.viewport { Some(v) => v as usize, None => usize::MAX };
        let b: usize = match available_rows { Some(v) => v as usize, None => usize::MAX };
        let visible = if a <= b { a } else { b };
        if let Some(w) = self.visible_window {
            return VirtualWindow::new(w.total, if w.len <= visible { w.len } else { visible }, w.start);
        }
        match self.source_window {
            Some(src) => {
                let len = if src.len <= visible { src.len } else { visible };
                if len == src.len {
                    src
                } else {
                    let sel = match self.selected { Some(x) => x, None => src.start };
                    let centered = sel.saturating_sub(len / 2);
                    let max_start = src.end().saturating_sub(len);
                    let start = if centered < src.start { src.start } else if centered > max_start { max_start } else { centered };
                    VirtualWindow::new(src.total, len, start)
                }
            },
            None => self.selection_anchor.window(self.items.len(), visible, self.selected),
        }
    }
}

/// Widest item plus the two-column caret gutter.
pub open spec fn items_cols(items: Seq<Line>) -> int
    decreases items.len(),
{
    if items.len() == 0 {
        0
    } else {
        let rest = items_cols(items.drop_last());
        let w = cap16(spans_cols(items.last().spans@) as int);
        if rest >= w { rest } else { w }
    }
}

/// The style of the selected row: the list's own, else the theme selection.
pub open spec fn list_selection_style(l: SelectList, theme: Theme) -> Style {
    match l.selection_style {
        Some(s) => s,
        None => Style {
            fg: Some(theme.selection_fg),
            bg: Some(theme.selection_bg),
            add_modifier: Modifier { bits: 1 },
            ..Style::spec_empty()
        },
    }
}

/// Columns a list row may use: one less than the area when a scrollbar is
/// shown beside an overflowing window.
pub open spec fn list_row_width(l: SelectList, w: VirtualWindow, area: Rect) -> int {
    if w.len < w.total && l.scrollbar { sat_sub(area.width as int, 1) } else { area.width as int }
}

/// The runs of a list item: each span over the item's style, and over the
/// selection style too when selected.
pub open spec fn item_runs(item: Line, selected: bool, sel: Style) -> Seq<(Seq<char>, Style)> {
    if selected {
        item.spans@.map_values(|s: Span| (s.content@, item.style.spec_patch(s.style).spec_patch(sel)))
    } else {
        item.spans@.map_values(|s: Span| (s.content@, item.style.spec_patch(s.style)))
    }
}

/// The window's rows from `i` on, row `i` on the area's row `i`: the
/// selected row restyled across the row width, then a caret cell (`›` when
/// selected, blank and muted otherwise) and, two columns in, the item's
/// spans cut at the row width. Rows before the held items are skipped;
/// drawing stops past the last held item or at the area's bottom.
pub open spec fn list_cells(
    barea: Rect,
    cells: Seq<CellView>,
    clip: Rect,
    area: Rect,
    l: SelectList,
    w: VirtualWindow,
    theme: Theme,
    i: int,
) -> Seq<CellView>
    decreases w.len - i,
{
    if i < 0 || i >= w.len {
        cells
    } else {
        let sel = list_selection_style(l, theme);
        let row_width = list_row_width(l, w, area);
        let items_start = match l.source_window {
            Some(sw) => sw.start as int,
            None => 0,
        };
        let idx = sat_usize(w.start + i);
        if idx < items_start {
            list_cells(barea, cells, clip, area, l, w, theme, i + 1)
        } else if idx - items_start >= l.items@.len() {
            cells
        } else {
            let y = sat_add(area.y as int, if i < 65535 { i } else { 65535 });
            if y >= area.spec_bottom() {
                cells
            } else {
                let selected = l.selected == Some(idx as usize);
                let row = Rect { x: area.x, y: y as u16, width: row_width as u16, height: 1 };
                let c1 = if selected {
                    restyled(barea, cells, row.spec_intersection(clip).spec_intersection(barea), sel)
                } else {
                    cells
                };
                let c2 = set_cell(
                    barea,
                    c1,
                    clip,
                    area.x as int,
                    y,
                    if selected { '›' } else { ' ' },
                    if selected { sel } else { Style { fg: Some(theme.muted), ..Style::spec_empty() } },
                );
                let runs = item_runs(l.items@[idx - items_start], selected, sel);
                let c3 = write_runs(
                    barea,
                    c2,
                    clip,
                    runs,
                    sat_add(area.x as int, 2),
                    y,
                    sat_add(area.x as int, row_width),
                    0,
                );
                list_cells(barea, c3, clip, area, l, w, theme, i + 1)
            }
        }
    }
}

/// The scrollbar cell at `(x, y)`: the right-hand column beside an
/// overflowing window when the list shows one, as tall as the rows shown.
pub open spec fn list_bar_cell(l: SelectList, w: VirtualWindow, area: Rect, theme: Theme, x: int, y: int) -> Option<(char, Style)> {
    if w.len < w.total && l.scrollbar && list_row_width(l, w, area) < area.width {
        let h = if w.len < area.height { w.len as int } else { area.height as int };
        scrollbar_cell(
            Rect { x: (area.spec_right() - 1) as u16, y: area.y, width: 1, height: h as u16 },
            thumb(w, h),
            theme.muted,
            theme.dim,
            x,
            y,
        )
    } else {
        None
    }
}

impl crate::view::View for SelectList {
    /// Widest item plus the caret gutter (capped to the offer) by the rows of
    /// the unconstrained window.
    fn measure(&self, available: Size, ctx: &RenderCtx) -> (s: Size)
        ensures
            ({
                let w = cap16(items_cols(self.items@) + 2);
                let rows = spec_list_window(*self, None).len as int;
                &&& s.width == if w <= available.width { w } else { available.width as int }
                &&& s.height == if rows <= u16::MAX { rows } else { u16::MAX as int }
            }),
    {
        let mut w: u16 = 0;
        let mut i: usize = 0;
        while i < self.items.len()
            invariant
                i <= self.items@.len(),
                w == items_cols(self.items@.take(i as int)),
            decreases self.items@.len() - i,
        {
            proof {
                assert(self.items@.take(i as int + 1).drop_last() =~= self.items@.take(i as int));
            }
            let lw = line_width(&self.items[i]);
            if lw > w {
                w = lw;
            }
            i = i + 1;
        }
        proof {
            assert(self.items@.take(i as int) =~= self.items@);
        }
        let width = w.saturating_add(2);
        let rows = self.window(None).len;
        Size::new(
            if width <= available.width { width } else { available.width },
            if rows <= 65535 { rows as u16 } else { 65535 },
        )
    }

    fn render(&self, area: Rect, surface: &mut Surface, ctx: &RenderCtx)
        ensures
            forall|x: int, y: int|
                old(surface).buffer.area.holds(x, y) ==> #[trigger] final(surface).buffer.at(x, y) == paint_cell(
                    list_cells(
                        old(surface).buffer.area,
                        old(surface).buffer.cells(),
                        old(surface).clip,
                        area,
                        *self,
                        spec_list_window(*self, Some(area.height)),
                        ctx.theme,
                        0,
                    )[flat_index(old(surface).buffer.area, x, y)],
                    list_bar_cell(*self, spec_list_window(*self, Some(area.height)), area, ctx.theme, x, y),
                    old(surface).clip,
                    x,
                    y,
                ),
    {
        let window = self.window(Some(area.height));
        let start = window.start;
        let rows = window.len;
        let overflow = window.overflows();
        let row_width = if overflow && self.scrollbar { area.width.saturating_sub(1) } else { area.width };
        let row_right = area.x.saturating_add(row_width);
        let selection_style = match self.selection_style {
            Some(st) => st,
            None => ctx.theme.selection_style(),
        };
        let items_start: usize = match self.source_window {
            Some(w) => w.start,
            None => 0,
        };
        let ghost target = list_cells(
            surface.buffer.area,
            surface.buffer.cells(),
            surface.clip,
            area,
            *self,
            window,
            ctx.theme,
            0,
        );
        let mut i: usize = 0;
        while i < rows
            invariant_except_break
                surface.wf(),
                surface.buffer.area == old(surface).buffer.area,
                surface.clip == old(surface).clip,
                rows == window.len,
                start == window.start,
                i <= rows,
                row_width == list_row_width(*self, window, area),
                row_right == sat_add(area.x as int, row_width as int),
                selection_style == list_selection_style(*self, ctx.theme),
                items_start == (match self.source_window {
                    Some(sw) => sw.start as int,
                    None => 0,
                }),
                list_cells(
                    surface.buffer.area,
                    surface.buffer.cells(),
                    surface.clip,
                    area,
                    *self,
                    window,
                    ctx.theme,
                    i as int,
                ) == target,
            ensures
                surface.wf(),
                surface.buffer.area == old(surface).buffer.area,
                surface.clip == old(surface).clip,
                surface.buffer.cells() == target,
            decreases rows - i,
        {
            let idx = start.saturating_add(i);
            if idx < items_start {
                i = i + 1;
                continue;
            }
            let local = idx - items_start;
            if local >= self.items.len() {
                break;
            }
            let item = &self.items[local];
            let off: u16 = if i < 65535 { i as u16 } else { 65535 };
            let y = area.y.saturating_add(off);
            if y >= area.bottom() {
                break;
            }
            let selected = match self.selected {
                Some(s) => s == idx,
                None => false,
            };
            if selected {
                let prev = surface.narrow(Rect::new(area.x, y, row_width, 1));
                surface.fill(selection_style);
                surface.restore_clip(prev);
            }
            let caret = if selected { '›' } else { ' ' };
            let caret_style = if selected { selection_style } else { ctx.theme.muted_style() };
            surface.set(area.x, y, caret, caret_style);
            let ghost runs = item_runs(*item, selected, selection_style);
            let ghost c_end = write_runs(
                surface.buffer.area,
                surface.buffer.cells(),
                surface.clip,
                runs,
                sat_add(area.x as int, 2),
                y as int,
                row_right as int,
                0,
            );
            let mut x = area.x.saturating_add(2);
            let mut k: usize = 0;
            while k < item.spans.len()
                invariant_except_break
                    surface.wf(),
                    surface.buffer.area == old(surface).buffer.area,
                    surface.clip == old(surface).clip,
                    k <= item.spans@.len(),
                    runs == item_runs(*item, selected, selection_style),
                    write_runs(
                        surface.buffer.area,
                        surface.buffer.cells(),
                        surface.clip,
                        runs,
                        x as int,
                        y as int,
                        row_right as int,
                        k as int,
                    ) == c_end,
                ensures
                    surface.wf(),
                    surface.buffer.area == old(surface).buffer.area,
                    surface.clip == old(surface).clip,
                    surface.buffer.cells() == c_end,
                decreases item.spans@.len() - k,
            {
                if x >= row_right {
                    break;
                }
                let span = &item.spans[k];
                let style = if selected {
                    item.style.patch(span.style).patch(selection_style)
                } else {
                    item.style.patch(span.style)
                };
                proof {
                    assert(runs[k as int] == (span.content@, style));
                }
                x = surface.set_string(x, y, span.content.as_str(), style);
                k = k + 1;
            }
            i = i + 1;
        }
        if overflow && self.scrollbar && row_width < area.width {
            let h: u16 = if rows < area.height as usize { rows as u16 } else { area.height };
            let bar = Scrollbar::vertical(window);
            crate::view::View::render(&bar, Rect::new(area.right() - 1, area.y, 1, h), surface, ctx);
        }
    }
}

} // verus!
