//! Input events and the outcome a component reports for each.

use vstd::prelude::*;

verus! {

/// A key on the keyboard.
#[derive(Clone, Copy, Debug, PartialEq, Eq, Structural)]
pub enum KeyCode {
    Char(char),
    Enter,
    Esc,
    Backspace,
    Delete,
    Left,
    Right,
    Up,
    Down,
    Home,
    End,
    PageUp,
    PageDown,
    Tab,
    BackTab,
    Insert,
    F(u8),
}

/// A key press with its modifier state.
#[derive(Clone, Copy, Debug, PartialEq, Eq, Structural)]
pub struct Key {
    pub code: KeyCode,
    pub ctrl: bool,
    pub alt: bool,
    pub shift: bool,
}

impl Key {
    /// A key press with no modifiers.
    pub fn new(code: KeyCode) -> (k: Key)
        ensures
            k == (Key { code, ctrl: false, alt: false, shift: false }),
    {
        Key { code, ctrl: false, alt: false, shift: false }
    }

    pub open spec fn spec_plain(self) -> bool {
        !self.ctrl && !self.alt && !self.shift
    }

    /// No modifier held.
    pub fn plain(&self) -> (b: bool)
        ensures
            b == self.spec_plain(),
    {
        !self.ctrl && !self.alt && !self.shift
    }
}

/// A mouse button.
#[derive(Clone, Copy, Debug, PartialEq, Eq, Structural)]
pub enum MouseButton {
    Left,
    Right,
    Middle,
}

/// What the mouse did.
#[derive(Clone, Copy, Debug, PartialEq, Eq, Structural)]
pub enum MouseKind {
    Down(MouseButton),
    Up(MouseButton),
    Drag(MouseButton),
    Moved,
    ScrollUp,
    ScrollDown,
}

/// A mouse event at a screen cell.
#[derive(Clone, Copy, Debug, PartialEq, Eq, Structural)]
pub struct Mouse {
    pub kind: MouseKind,
    pub column: u16,
    pub row: u16,
    pub ctrl: bool,
    pub alt: bool,
    pub shift: bool,
}

impl Mouse {
    /// An unmodified mouse event at `(column, row)`.
    pub fn at(kind: MouseKind, column: u16, row: u16) -> (m: Mouse)
        ensures
            m == (Mouse { kind, column, row, ctrl: false, alt: false, shift: false }),
    {
        Mouse { kind, column, row, ctrl: false, alt: false, shift: false }
    }

    pub open spec fn spec_plain(self) -> bool {
        !self.ctrl && !self.alt && !self.shift
    }

    /// No modifier held.
    pub fn plain(&self) -> (b: bool)
        ensures
            b == self.spec_plain(),
    {
        !self.ctrl && !self.alt && !self.shift
    }
}

/// One input event.
#[derive(Clone, Copy, Debug, PartialEq, Eq, Structural)]
pub enum Event {
    Key(Key),
    Mouse(Mouse),
    Resize(u16, u16),
    FocusGained,
    FocusLost,
}

/// What a component did with an event.
#[derive(Clone, Copy, Debug, PartialEq, Eq, Structural)]
pub enum InputOutcome {
    /// Not for this component.
    Ignored,
    /// Taken, with no visible change.
    Consumed,
    /// Taken, and state changed.
    Changed,
    /// The user confirmed.
    Submitted,
    /// The user backed out.
    Cancelled,
}

} // verus!
