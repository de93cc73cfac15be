use vstd::prelude::*;

verus! {

/// A key of the keyboard, as the interface reads it.
#[derive(Clone, Copy, Debug, PartialEq, Eq, Structural)]
pub enum KeyCode {
    Char(char),
    Left,
    Right,
    Up,
    Down,
    Home,
    End,
    PageUp,
    PageDown,
    Tab,
    BackTab,
    Backspace,
    Delete,
    Enter,
    Esc,
    Other,
}

/// A key press with the modifiers that the interface reacts to.
#[derive(Clone, Copy, Debug, PartialEq, Eq, Structural)]
pub struct KeyEvent {
    pub code: KeyCode,
    pub ctrl: bool,
    pub alt: bool,
}

impl KeyEvent {
    /// A key pressed without modifiers.
    pub fn new(code: KeyCode) -> (r: Self)
        ensures
            r.code == code,
            !r.ctrl,
            !r.alt,
    {
        KeyEvent { code, ctrl: false, alt: false }
    }

    /// A key pressed with Control.
    pub fn ctrl(code: KeyCode) -> (r: Self)
        ensures
            r.code == code,
            r.ctrl,
            !r.alt,
    {
        KeyEvent { code, ctrl: true, alt: false }
    }
}

} // verus!
