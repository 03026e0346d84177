//! SKK keybinding configuration.

use vstd::prelude::*;

use crate::key::{Key, Modifiers, SHIFT_BIT};

verus! {

/// SKK keybinding configuration.
///
/// Defaults are built in; the daemon overrides some of them from `config.toml`.
#[derive(Debug, Clone)]
pub struct SkkKeybindings {
    /// Characters that switch to ASCII (latin) mode (default: `['l']`)
    pub ascii_mode: Vec<char>,
    /// Characters that switch to wide-ASCII mode (default: `['L']`)
    pub wide_ascii_mode: Vec<char>,
    /// Characters that switch to katakana mode (default: `['q']`)
    pub katakana_mode: Vec<char>,
    /// Characters that start abbrev (romaji search) mode (default: `['/']`)
    pub abbrev_mode: Vec<char>,
    /// Characters that cancel / shrink the current operation (default: `['x']`)
    pub cancel: Vec<char>,
    /// Number of candidates shown one-by-one (inline) before switching to list mode.
    /// Once `index >= inline_count`, a page of candidates is shown at once and
    /// `selection_keys` are used to pick one directly (default: `3`).
    pub inline_count: usize,
    /// Keys that select candidates in listing mode, left-to-right (default: `"asdfjkl;"`).
    pub selection_keys: Vec<char>,
    /// Characters that trigger immediate conversion in ▽ mode; the trigger is
    /// output after the committed candidate (default: `[',', '.', 'を']`).
    pub conversion_trigger_chars: Vec<char>,
    /// Key combinations that toggle the IME between ASCII and hiragana
    /// (default: Shift+Space).
    pub toggle_keys: Vec<(Key, Modifiers)>,
}

impl Default for SkkKeybindings {
    fn default() -> (r: Self)
        ensures
            r.ascii_mode@ == seq!['l'],
            r.wide_ascii_mode@ == seq!['L'],
            r.katakana_mode@ == seq!['q'],
            r.abbrev_mode@ == seq!['/'],
            r.cancel@ == seq!['x'],
            r.inline_count == 3,
            r.selection_keys@ == seq!['a', 's', 'd', 'f', 'j', 'k', 'l', ';'],
            r.conversion_trigger_chars@ == seq![',', '.', 'を'],
            r.toggle_keys@ == seq![(Key::Space, Modifiers { bits: SHIFT_BIT })],
    {
        Self {
            ascii_mode: vec!['l'],
            wide_ascii_mode: vec!['L'],
            katakana_mode: vec!['q'],
            abbrev_mode: vec!['/'],
            cancel: vec!['x'],
            inline_count: 3,
            selection_keys: vec!['a', 's', 'd', 'f', 'j', 'k', 'l', ';'],
            conversion_trigger_chars: vec![',', '.', 'を'],
            toggle_keys: vec![(Key::Space, Modifiers::shift())],
        }
    }
}

} // verus!
