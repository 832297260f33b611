//! Stateful dialog presets: the host-owned state machines of the confirm,
//! single-choice and multiple-choice dialogs, their builders, and the wrapped
//! message copy they show above their controls.

use vstd::prelude::*;
use crate::event::{Event, InputOutcome, KeyCode};
use crate::geometry::{Rect, Size};
use crate::graphemes::grapheme_clusters;
use crate::surface::{Surface, write_rows};
use crate::style::Style;
use crate::view::RenderCtx;
use crate::width::{cap16, text_cols};
use super::select::{
    MultiSelectState, SelectNavigation, SelectState, spec_clamp, spec_select_event, toggled,
};
use super::tab_select::{TabSelectState, tab_select_event};
use super::text::{row_text, split_newlines, split_newlines_exec, wrap_str, wrap_str_rows};

verus! {

/// A plain Esc press.
pub open spec fn is_escape(event: Event) -> bool {
    match event {
        Event::Key(k) => k.spec_plain() && k.code == KeyCode::Esc,
        _ => false,
    }
}

/// A plain Enter press.
pub open spec fn is_enter(event: Event) -> bool {
    match event {
        Event::Key(k) => k.spec_plain() && k.code == KeyCode::Enter,
        _ => false,
    }
}

fn escape(event: &Event) -> (b: bool)
    ensures
        b == is_escape(*event),
{
    match event {
        Event::Key(key) => key.plain() && key.code == KeyCode::Esc,
        _ => false,
    }
}

/// Every picker alias: vim keys, Ctrl+N/P, Tab and the numeric shortcuts.
pub open spec fn common_navigation() -> SelectNavigation {
    SelectNavigation { vim: true, ctrl_n_p: true, tab: true, numeric: true }
}

/// Host-owned safe-default state for a [`ConfirmDialog`]: pill 0 is the
/// safe action, pill 1 the affirmative one.
#[derive(Clone, Copy, Debug)]
pub struct ConfirmDialogState {
    pub selection: TabSelectState,
}

impl ConfirmDialogState {
    /// A state with the safe/cancel option selected.
    pub fn new() -> (s: ConfirmDialogState)
        ensures
            s.selection.selected == 0,
    {
        ConfirmDialogState { selection: TabSelectState::new() }
    }

    /// Whether the affirmative option is currently selected.
    pub fn confirmed(&self) -> (b: bool)
        ensures
            b == (self.selection.selected == 1),
    {
        self.selection.selected() == 1
    }

    /// Esc cancels; otherwise Left/Right/Tab move between the two actions and
    /// Enter or Space submit.
    pub fn handle(&mut self, event: &Event) -> (r: InputOutcome)
        ensures
            is_escape(*event) ==> r == InputOutcome::Cancelled && final(self).selection == old(self).selection,
            !is_escape(*event) ==> (final(self).selection.selected as int, r) == tab_select_event(
                old(self).selection.selected as int,
                *event,
                2,
            ),
    {
        if escape(event) {
            InputOutcome::Cancelled
        } else {
            self.selection.handle(event, 2)
        }
    }
}

impl Default for ConfirmDialogState {
    fn default() -> (s: ConfirmDialogState)
        ensures
            s.selection.selected == 0,
    {
        ConfirmDialogState::new()
    }
}

/// Confirmation dialog with a message and a safe-default two-button selector.
pub struct ConfirmDialog {
    pub title: String,
    pub message: String,
    pub cancel_label: String,
    pub confirm_label: String,
    pub selected: usize,
    pub width: u16,
    pub height: u16,
    pub dim: bool,
    pub owner: Option<String>,
}

impl ConfirmDialog {
    /// A confirmation dialog whose highlighted action mirrors `state`,
    /// labelled Cancel / Confirm, 52 by 7 cells, dimming the backdrop.
    pub fn new(title: &str, message: &str, state: &ConfirmDialogState) -> (d: ConfirmDialog)
        ensures
            d.title@ == title@,
            d.message@ == message@,
            d.cancel_label@ == "Cancel"@,
            d.confirm_label@ == "Confirm"@,
            d.selected == state.selection.selected,
            d.width == 52 && d.height == 7,
            d.dim,
            d.owner.is_none(),
    {
        ConfirmDialog {
            title: title.to_owned(),
            message: message.to_owned(),
            cancel_label: "Cancel".to_owned(),
            confirm_label: "Confirm".to_owned(),
            selected: state.selection.selected(),
            width: 52,
            height: 7,
            dim: true,
            owner: None,
        }
    }

    /// Replace the safe action label.
    pub fn cancel_label(self, label: &str) -> (d: ConfirmDialog)
        ensures
            d.cancel_label@ == label@,
            d.title == self.title && d.message == self.message && d.confirm_label == self.confirm_label,
            d.selected == self.selected && d.width == self.width && d.height == self.height,
            d.dim == self.dim && d.owner == self.owner,
    {
        ConfirmDialog { cancel_label: label.to_owned(), ..self }
    }

    /// Replace the affirmative action label.
    pub fn confirm_label(self, label: &str) -> (d: ConfirmDialog)
        ensures
            d.confirm_label@ == label@,
            d.title == self.title && d.message == self.message && d.cancel_label == self.cancel_label,
            d.selected == self.selected && d.width == self.width && d.height == self.height,
            d.dim == self.dim && d.owner == self.owner,
    {
        ConfirmDialog { confirm_label: label.to_owned(), ..self }
    }

    /// Set the absolute outer dialog size.
    pub fn size(self, width: u16, height: u16) -> (d: ConfirmDialog)
        ensures
            d.width == width && d.height == height,
            d.title == self.title && d.message == self.message,
            d.cancel_label == self.cancel_label && d.confirm_label == self.confirm_label,
            d.selected == self.selected && d.dim == self.dim && d.owner == self.owner,
    {
        ConfirmDialog { width, height, ..self }
    }

    /// Whether to dim the rendered scene behind the dialog.
    pub fn dim_backdrop(self, dim: bool) -> (d: ConfirmDialog)
        ensures
            d.dim == dim,
            d.title == self.title && d.message == self.message,
            d.cancel_label == self.cancel_label && d.confirm_label == self.confirm_label,
            d.selected == self.selected && d.width == self.width && d.height == self.height,
            d.owner == self.owner,
    {
        ConfirmDialog { dim, ..self }
    }

    /// Claim exclusive input ownership while this dialog is topmost.
    pub fn focus_owner(self, id: &str) -> (d: ConfirmDialog)
        ensures
            d.owner matches Some(o) && o@ == id@,
            d.title == self.title && d.message == self.message,
            d.cancel_label == self.cancel_label && d.confirm_label == self.confirm_label,
            d.selected == self.selected && d.width == self.width && d.height == self.height,
            d.dim == self.dim,
    {
        ConfirmDialog { owner: Some(id.to_owned()), ..self }
    }
}

/// Host-owned cursor for a [`ChoiceDialog`].
#[derive(Clone, Copy, Debug)]
pub struct ChoiceDialogState {
    pub selection: SelectState,
}

impl ChoiceDialogState {
    /// A state with the first option selected.
    pub fn new() -> (s: ChoiceDialogState)
        ensures
            s.selection.selected == Some(0usize),
    {
        ChoiceDialogState { selection: SelectState::new() }
    }

    /// The highlighted option.
    pub fn selected(&self) -> (r: Option<usize>)
        ensures
            r == self.selection.selected,
    {
        self.selection.selected()
    }

    /// List navigation with every common alias, Enter submission and Esc
    /// cancellation.
    pub fn handle(&mut self, event: &Event, option_count: usize) -> (r: InputOutcome)
        ensures
            (final(self).selection.selected, r) == spec_select_event(
                old(self).selection.selected,
                *event,
                option_count as int,
                common_navigation(),
            ),
    {
        self.selection.handle_with(event, option_count, SelectNavigation::common())
    }
}

impl Default for ChoiceDialogState {
    fn default() -> (s: ChoiceDialogState)
        ensures
            s.selection.selected == Some(0usize),
    {
        ChoiceDialogState::new()
    }
}

/// The default outer height of a list dialog: the visible option rows (at
/// most `viewport`) plus six rows of frame, copy and hints.
pub open spec fn list_dialog_height(options: int, viewport: int) -> int {
    crate::geometry::sat_add(if options < viewport { options } else { viewport }, 6)
}

fn default_list_height(options: usize, viewport: u16) -> (h: u16)
    ensures
        h == cap16(list_dialog_height(options as int, viewport as int)),
{
    let rows: u16 = if options < viewport as usize { options as u16 } else { viewport };
    rows.saturating_add(6)
}

/// Single-choice dialog with explanatory copy above the option list.
pub struct ChoiceDialog {
    pub title: String,
    pub message: String,
    pub options: Vec<String>,
    pub selected: Option<usize>,
    pub viewport: u16,
    pub width: u16,
    pub height: u16,
    pub dim: bool,
    pub owner: Option<String>,
}

impl ChoiceDialog {
    /// A choice dialog over owned option labels, 56 cells wide, showing at
    /// most eight rows, sized to its options.
    pub fn new(title: &str, message: &str, options: Vec<String>, state: &ChoiceDialogState) -> (d: ChoiceDialog)
        ensures
            d.title@ == title@,
            d.message@ == message@,
            d.options == options,
            d.selected == state.selection.selected,
            d.viewport == 8,
            d.width == 56,
            d.height == cap16(list_dialog_height(options@.len() as int, 8)),
            d.dim,
            d.owner.is_none(),
    {
        let viewport: u16 = 8;
        let height = default_list_height(options.len(), viewport);
        ChoiceDialog {
            title: title.to_owned(),
            message: message.to_owned(),
            options,
            selected: state.selection.selected(),
            viewport,
            width: 56,
            height,
            dim: true,
            owner: None,
        }
    }

    /// Cap the visible option rows (at least one).
    pub fn viewport(self, rows: u16) -> (d: ChoiceDialog)
        ensures
            d.viewport == if rows > 1 { rows } else { 1 },
            d.title == self.title && d.message == self.message && d.options == self.options,
            d.selected == self.selected && d.width == self.width && d.height == self.height,
            d.dim == self.dim && d.owner == self.owner,
    {
        ChoiceDialog { viewport: if rows > 1 { rows } else { 1 }, ..self }
    }

    /// Set the absolute outer dialog size.
    pub fn size(self, width: u16, height: u16) -> (d: ChoiceDialog)
        ensures
            d.width == width && d.height == height,
            d.title == self.title && d.message == self.message && d.options == self.options,
            d.selected == self.selected && d.viewport == self.viewport,
            d.dim == self.dim && d.owner == self.owner,
    {
        ChoiceDialog { width, height, ..self }
    }

    /// Whether to dim the rendered scene behind the dialog.
    pub fn dim_backdrop(self, dim: bool) -> (d: ChoiceDialog)
        ensures
            d.dim == dim,
            d.title == self.title && d.message == self.message && d.options == self.options,
            d.selected == self.selected && d.viewport == self.viewport,
            d.width == self.width && d.height == self.height && d.owner == self.owner,
    {
        ChoiceDialog { dim, ..self }
    }

    /// Claim exclusive input ownership while this dialog is topmost.
    pub fn focus_owner(self, id: &str) -> (d: ChoiceDialog)
        ensures
            d.owner matches Some(o) && o@ == id@,
            d.title == self.title && d.message == self.message && d.options == self.options,
            d.selected == self.selected && d.viewport == self.viewport,
            d.width == self.width && d.height == self.height && d.dim == self.dim,
    {
        ChoiceDialog { owner: Some(id.to_owned()), ..self }
    }
}

/// Host-owned cursor and checked set for a [`MultiChoiceDialog`].
#[derive(Clone, Debug)]
pub struct MultiChoiceDialogState {
    pub selection: MultiSelectState,
}

impl MultiChoiceDialogState {
    pub open spec fn wf(&self) -> bool {
        self.selection.wf()
    }

    /// The first row highlighted and nothing checked.
    pub fn new() -> (s: MultiChoiceDialogState)
        ensures
            s.wf(),
            s.selection.cursor.selected == Some(0usize),
            s.selection.checked@.len() == 0,
    {
        MultiChoiceDialogState { selection: MultiSelectState::new() }
    }

    /// The highlighted row.
    pub fn cursor(&self) -> (r: Option<usize>)
        ensures
            r == self.selection.cursor.selected,
    {
        self.selection.cursor().selected()
    }

    /// Whether `index` is checked.
    pub fn contains(&self, index: usize) -> (b: bool)
        ensures
            b == self.selection.checked@.contains(index),
    {
        self.selection.contains(index)
    }

    /// The checked indices, ascending.
    pub fn selected(&self) -> (v: Vec<usize>)
        ensures
            v@ == self.selection.checked@,
    {
        self.selection.selected()
    }

    /// A plain Enter submits without touching the selection; anything else
    /// goes to the multi-select list with every common alias (Space toggles).
    pub fn handle(&mut self, event: &Event, option_count: usize) -> (r: InputOutcome)
        requires
            old(self).wf(),
        ensures
            final(self).wf(),
            is_enter(*event) ==> r == InputOutcome::Submitted && final(self).selection == old(self).selection,
            !is_enter(*event) ==> ({
                let len = option_count as int;
                let is_space = match *event {
                    Event::Key(k) => k.spec_plain() && k.code == KeyCode::Char(' '),
                    _ => false,
                };
                let (sel, out) = spec_select_event(old(self).selection.cursor.selected, *event, len, common_navigation());
                let before = old(self).selection;
                let after = final(self).selection;
                if is_space {
                    after.cursor.selected == spec_clamp(before.cursor.selected, len) && match spec_clamp(
                        before.cursor.selected,
                        len,
                    ) {
                        Some(i) => r == InputOutcome::Changed && after.checked_set() == toggled(before.checked_set(), i),
                        None => r == InputOutcome::Ignored && after.checked == before.checked,
                    }
                } else if out == InputOutcome::Submitted {
                    after.cursor.selected == sel && match sel {
                        Some(i) => r == InputOutcome::Changed && after.checked_set() == toggled(before.checked_set(), i),
                        None => r == InputOutcome::Ignored && after.checked == before.checked,
                    }
                } else {
                    after.cursor.selected == sel && r == out && after.checked == before.checked
                }
            }),
    {
        if let Event::Key(key) = event {
            if key.plain() && key.code == KeyCode::Enter {
                return InputOutcome::Submitted;
            }
        }
        self.selection.handle(event, option_count, SelectNavigation::common())
    }
}

impl Default for MultiChoiceDialogState {
    fn default() -> (s: MultiChoiceDialogState)
        ensures
            s.wf(),
            s.selection.cursor.selected == Some(0usize),
            s.selection.checked@.len() == 0,
    {
        MultiChoiceDialogState::new()
    }
}

/// Multiple-choice dialog with checkbox rows.
pub struct MultiChoiceDialog {
    pub title: String,
    pub message: String,
    pub options: Vec<String>,
    pub cursor: Option<usize>,
    pub checked: Vec<usize>,
    pub viewport: u16,
    pub width: u16,
    pub height: u16,
    pub dim: bool,
    pub owner: Option<String>,
}

impl MultiChoiceDialog {
    /// A multiple-choice dialog snapshotting `state`'s cursor and checked set,
    /// 56 cells wide, showing at most eight rows, sized to its options.
    pub fn new(title: &str, message: &str, options: Vec<String>, state: &MultiChoiceDialogState) -> (d: MultiChoiceDialog)
        ensures
            d.title@ == title@,
            d.message@ == message@,
            d.options == options,
            d.cursor == state.selection.cursor.selected,
            d.checked@ == state.selection.checked@,
            d.viewport == 8,
            d.width == 56,
            d.height == cap16(list_dialog_height(options@.len() as int, 8)),
            d.dim,
            d.owner.is_none(),
    {
        let viewport: u16 = 8;
        let height = default_list_height(options.len(), viewport);
        MultiChoiceDialog {
            title: title.to_owned(),
            message: message.to_owned(),
            options,
            cursor: state.cursor(),
            checked: state.selected(),
            viewport,
            width: 56,
            height,
            dim: true,
            owner: None,
        }
    }

    /// Cap the visible option rows (at least one).
    pub fn viewport(self, rows: u16) -> (d: MultiChoiceDialog)
        ensures
            d.viewport == if rows > 1 { rows } else { 1 },
            d.title == self.title && d.message == self.message && d.options == self.options,
            d.cursor == self.cursor && d.checked == self.checked,
            d.width == self.width && d.height == self.height,
            d.dim == self.dim && d.owner == self.owner,
    {
        MultiChoiceDialog { viewport: if rows > 1 { rows } else { 1 }, ..self }
    }

    /// Set the absolute outer dialog size.
    pub fn size(self, width: u16, height: u16) -> (d: MultiChoiceDialog)
        ensures
            d.width == width && d.height == height,
            d.title == self.title && d.message == self.message && d.options == self.options,
            d.cursor == self.cursor && d.checked == self.checked && d.viewport == self.viewport,
            d.dim == self.dim && d.owner == self.owner,
    {
        MultiChoiceDialog { width, height, ..self }
    }

    /// Whether to dim the rendered scene behind the dialog.
    pub fn dim_backdrop(self, dim: bool) -> (d: MultiChoiceDialog)
        ensures
            d.dim == dim,
            d.title == self.title && d.message == self.message && d.options == self.options,
            d.cursor == self.cursor && d.checked == self.checked && d.viewport == self.viewport,
            d.width == self.width && d.height == self.height && d.owner == self.owner,
    {
        MultiChoiceDialog { dim, ..self }
    }

    /// Claim exclusive input ownership while this dialog is topmost.
    pub fn focus_owner(self, id: &str) -> (d: MultiChoiceDialog)
        ensures
            d.owner matches Some(o) && o@ == id@,
            d.title == self.title && d.message == self.message && d.options == self.options,
            d.cursor == self.cursor && d.checked == self.checked && d.viewport == self.viewport,
            d.width == self.width && d.height == self.height && d.dim == self.dim,
    {
        MultiChoiceDialog { owner: Some(id.to_owned()), ..self }
    }
}

/// The plain-text rows that wrapping `text` (no newlines) to `width` gives.
pub open spec fn wrapped_texts(text: Seq<char>, width: int) -> Seq<Seq<char>> {
    let rows = wrap_str_rows(text, width);
    Seq::new(rows.len(), |r: int| row_text(grapheme_clusters(text), rows[r]))
}

/// Each paragraph's wrapped rows, in order.
pub open spec fn copy_rows(parts: Seq<Seq<char>>, width: int) -> Seq<Seq<char>>
    decreases parts.len(),
{
    if parts.len() == 0 {
        seq![]
    } else {
        copy_rows(parts.drop_last(), width) + wrapped_texts(parts.last(), width)
    }
}

/// The rows of dialog copy at `width`: every newline-separated paragraph
/// word-wrapped (a blank paragraph keeps its one empty row); nothing at
/// width zero.
pub open spec fn copy_lines(text: Seq<char>, width: int) -> Seq<Seq<char>> {
    if width == 0 {
        seq![]
    } else {
        copy_rows(split_newlines(text), width)
    }
}

/// The widest of `lines`, in columns.
pub open spec fn widest(lines: Seq<Seq<char>>) -> int
    decreases lines.len(),
{
    if lines.len() == 0 {
        0
    } else {
        crate::geometry::max(widest(lines.drop_last()), cap16(text_cols(lines.last()) as int))
    }
}

/// Wrapped explanatory copy drawn in the theme's text color.
pub struct DialogCopy {
    pub text: String,
}

impl DialogCopy {
    pub fn new(text: String) -> (c: DialogCopy)
        ensures
            c.text == text,
    {
        DialogCopy { text }
    }

    /// The rows drawn at `width`.
    pub fn lines(&self, width: u16) -> (v: Vec<String>)
        ensures
            v@.map_values(|s: String| s@) == copy_lines(self.text@, width as int),
    {
        if width == 0 {
            return Vec::new();
        }
        let parts = split_newlines_exec(self.text.as_str());
        let ghost pv = parts@.map_values(|p: String| p@);
        let mut out: Vec<String> = Vec::new();
        let mut i: usize = 0;
        while i < parts.len()
            invariant
                i <= parts@.len(),
                pv == parts@.map_values(|p: String| p@),
                width > 0,
                out@.map_values(|s: String| s@) == copy_rows(pv.take(i as int), width as int),
            decreases parts@.len() - i,
        {
            let rows = wrap_str(parts[i].as_str(), width);
            let ghost text = parts@[i as int]@;
            let ghost before = out@.map_values(|s: String| s@);
            let mut r: usize = 0;
            while r < rows.len()
                invariant
                    r <= rows@.len(),
                    rows@.len() == wrap_str_rows(text, width as int).len(),
                    forall|k: int|
                        0 <= k < rows@.len() ==> (#[trigger] rows@[k]).text@ == row_text(
                            grapheme_clusters(text),
                            wrap_str_rows(text, width as int)[k],
                        ),
                    out@.map_values(|s: String| s@) == before + wrapped_texts(text, width as int).take(r as int),
                decreases rows@.len() - r,
            {
                let ghost prev = out@;
                out.push(rows[r].text.clone());
                proof {
                    assert(out@.map_values(|s: String| s@) =~= prev.map_values(|s: String| s@).push(
                        rows@[r as int].text@,
                    ));
                    assert(wrapped_texts(text, width as int).take(r + 1) =~= wrapped_texts(text, width as int).take(
                        r as int,
                    ).push(rows@[r as int].text@));
                    assert(out@.map_values(|s: String| s@) =~= before + wrapped_texts(text, width as int).take(
                        r + 1,
                    ));
                }
                r = r + 1;
            }
            proof {
                assert(wrapped_texts(text, width as int).take(r as int) =~= wrapped_texts(text, width as int));
                assert(pv.take(i + 1).drop_last() =~= pv.take(i as int));
                assert(pv.take(i + 1).last() == text);
            }
            i = i + 1;
        }
        proof {
            assert(pv.take(i as int) =~= pv);
        }
        out
    }
}

impl crate::view::View for DialogCopy {
    /// The widest wrapped row by as many rows as fit.
    fn measure(&self, available: Size, ctx: &RenderCtx) -> (s: Size)
        ensures
            s.width == widest(copy_lines(self.text@, available.width as int)),
            s.height == crate::geometry::min(
                copy_lines(self.text@, available.width as int).len() as int,
                available.height as int,
            ),
    {
        let lines = self.lines(available.width);
        let ghost lv = lines@.map_values(|s: String| s@);
        let mut w: u16 = 0;
        let mut k: usize = 0;
        while k < lines.len()
            invariant
                k <= lines@.len(),
                lv == lines@.map_values(|s: String| s@),
                w == widest(lv.take(k as int)),
            decreases lines@.len() - k,
        {
            let c = crate::width::str_cols(lines[k].as_str());
            proof {
                assert(lv.take(k + 1).drop_last() =~= lv.take(k as int));
            }
            if c > w {
                w = c;
            }
            k = k + 1;
        }
        proof {
            assert(lv.take(k as int) =~= lv);
        }
        let h: u16 = if lines.len() < available.height as usize { lines.len() as u16 } else { available.height };
        Size::new(w, h)
    }

    /// One wrapped row per line of `area`, top down, in the theme's text color.
    fn render(&self, area: Rect, surface: &mut Surface, ctx: &RenderCtx)
        ensures
            final(surface).buffer.cells() == write_rows(
                old(surface).buffer.area,
                old(surface).buffer.cells(),
                old(surface).clip,
                copy_lines(self.text@, area.width as int),
                area,
                Style { fg: Some(ctx.theme.text), ..Style::spec_empty() },
                0,
            ),
    {
        let lines = self.lines(area.width);
        let style = Style { fg: Some(ctx.theme.text), ..Style::new() };
        let ghost rows = copy_lines(self.text@, area.width as int);
        let ghost target = write_rows(surface.buffer.area, surface.buffer.cells(), surface.clip, rows, area, style, 0);
        let mut row: usize = 0;
        while row < lines.len()
            invariant_except_break
                surface.wf(),
                surface.buffer.area == old(surface).buffer.area,
                surface.clip == old(surface).clip,
                row <= area.height,
                row <= lines@.len(),
                rows == lines@.map_values(|s: String| s@),
                write_rows(surface.buffer.area, surface.buffer.cells(), surface.clip, rows, area, style, row as int)
                    == target,
            ensures
                surface.wf(),
                surface.buffer.area == old(surface).buffer.area,
                surface.clip == old(surface).clip,
                surface.buffer.cells() == target,
            decreases lines@.len() - row,
        {
            let y = area.y.saturating_add(row as u16);
            if y >= area.bottom() {
                break;
            }
            proof {
                assert(rows[row as int] == lines@[row as int]@);
            }
            surface.set_string(area.x, y, lines[row].as_str(), style);
            row = row + 1;
        }
    }
}

} // verus!
