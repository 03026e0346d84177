//! Platform-independent key events.

use vstd::prelude::*;

verus! {

/// Platform-independent key identifier.
/// Maps X11 keysym / Qt::Key / GDK_KEY_* values to this enum.
#[derive(Debug, Clone, Copy, PartialEq, Eq, Structural, Hash)]
pub enum Key {
    Char(char),
    Space,
    Return,
    BackSpace,
    Delete,
    Escape,
    Tab,
    Up,
    Down,
    Left,
    Right,
    PageUp,
    PageDown,
    F(u8),
    /// Unknown keysym (for passthrough)
    Other(u32),
}

/// Set of modifier keys held during a key event (a four-bit mask).
#[derive(Debug, Clone, Copy, PartialEq, Eq, Structural, Hash)]
pub struct Modifiers {
    pub bits: u8,
}

/// Bit of the Shift modifier.
pub const SHIFT_BIT: u8 = 0b0001;
/// Bit of the Control modifier.
pub const CTRL_BIT: u8 = 0b0010;
/// Bit of the Alt modifier.
pub const ALT_BIT: u8 = 0b0100;
/// Bit of the Meta modifier.
pub const META_BIT: u8 = 0b1000;

impl Modifiers {
    /// The Shift modifier alone.
    pub fn shift() -> (r: Modifiers)
        ensures
            r.bits == SHIFT_BIT,
    {
        Modifiers { bits: SHIFT_BIT }
    }

    /// The Control modifier alone.
    pub fn ctrl() -> (r: Modifiers)
        ensures
            r.bits == CTRL_BIT,
    {
        Modifiers { bits: CTRL_BIT }
    }

    /// The Alt modifier alone.
    pub fn alt() -> (r: Modifiers)
        ensures
            r.bits == ALT_BIT,
    {
        Modifiers { bits: ALT_BIT }
    }

    /// The Meta modifier alone.
    pub fn meta() -> (r: Modifiers)
        ensures
            r.bits == META_BIT,
    {
        Modifiers { bits: META_BIT }
    }

    /// Whether every bit of `other` is set in `self`.
    pub open spec fn spec_contains(&self, other: Modifiers) -> bool {
        self.bits & other.bits == other.bits
    }

    /// The empty set.
    pub fn empty() -> (r: Modifiers)
        ensures
            r.bits == 0,
    {
        Modifiers { bits: 0 }
    }

    /// Whether every modifier of `other` is held.
    #[verifier::when_used_as_spec(spec_contains)]
    pub fn contains(&self, other: Modifiers) -> (r: bool)
        ensures
            r == self.spec_contains(other),
    {
        self.bits & other.bits == other.bits
    }

    /// Union of two modifier sets.
    pub fn union(self, other: Modifiers) -> (r: Modifiers)
        ensures
            r.bits == self.bits | other.bits,
    {
        Modifiers { bits: self.bits | other.bits }
    }

    /// Whether no modifier is held.
    pub fn is_empty(&self) -> (r: bool)
        ensures
            r == (self.bits == 0),
    {
        self.bits == 0
    }
}

/// Whether the Control bit is set.
pub open spec fn has_ctrl(m: Modifiers) -> bool {
    m.bits & CTRL_BIT == CTRL_BIT
}

/// A key press or release.
#[derive(Debug, Clone, Copy, PartialEq, Eq, Structural)]
pub struct KeyEvent {
    pub key: Key,
    pub modifiers: Modifiers,
    pub is_press: bool,
}

/// The printable character of a key (`Space` counts as `' '`).
pub open spec fn spec_printable_char(key: Key) -> Option<char> {
    match key {
        Key::Char(c) => Some(c),
        Key::Space => Some(' '),
        _ => None,
    }
}

impl KeyEvent {
    /// A key press.
    pub fn press(key: Key, modifiers: Modifiers) -> (r: Self)
        ensures
            r == (KeyEvent { key, modifiers, is_press: true }),
    {
        Self { key, modifiers, is_press: true }
    }

    /// A key release.
    pub fn release(key: Key, modifiers: Modifiers) -> (r: Self)
        ensures
            r == (KeyEvent { key, modifiers, is_press: false }),
    {
        Self { key, modifiers, is_press: false }
    }

    /// Returns the printable character for this event, if any (without Shift consideration).
    pub fn printable_char(&self) -> (r: Option<char>)
        ensures
            r == spec_printable_char(self.key),
    {
        match &self.key {
            Key::Char(c) => Some(*c),
            Key::Space => Some(' '),
            _ => None,
        }
    }
}

} // verus!
