//! Types exchanged between the daemon and the platform adapters, and the
//! conversions and dispatch around them.

use vstd::prelude::*;

pub mod client;
pub mod convert;
pub mod dispatch;
pub mod keysym;
pub mod reconnect;

verus! {

/// Identifier of a daemon session.
pub type SessionId = u32;

// ── Action kinds ─────────────────────────────────────────────────────────────

pub const ACTION_PASSTHROUGH: u8 = 0;
pub const ACTION_COMMIT: u8 = 1;
pub const ACTION_UPDATE_PREEDIT: u8 = 2;
pub const ACTION_CLEAR_PREEDIT: u8 = 3;
pub const ACTION_SHOW_CANDIDATES: u8 = 4;
pub const ACTION_HIDE_CANDIDATES: u8 = 5;
pub const ACTION_UPDATE_STATUS: u8 = 6;
/// Returned by the daemon when the session ID is not recognised (e.g. after a
/// daemon restart).  Adapters should re-create the session and retry the key.
pub const ACTION_SESSION_INVALID: u8 = 7;

/// `ghost_start` value meaning "no completion ghost in the preedit".
pub const NO_GHOST: u32 = 0xFFFF_FFFF;

/// An action produced by the engine, encoded as a flat struct.
///
/// Fields unused by a particular `kind` are zero/empty (`ghost_start` is
/// [`NO_GHOST`]).
///
/// | kind | text | cursor | candidates | focused |
/// |------|------|--------|------------|---------|
/// | 0 Passthrough | – | – | – | – |
/// | 1 Commit | committed text | – | – | – |
/// | 2 UpdatePreedit | preedit text | byte offset | – | – |
/// | 3 ClearPreedit | – | – | – | – |
/// | 4 ShowCandidates | selection keys | – | word list | index |
/// | 5 HideCandidates | – | – | – | – |
/// | 6 UpdateStatus | indicator | timeout (ms) | – | – |
#[derive(Debug, Clone, PartialEq, Eq)]
pub struct IpcAction {
    pub kind: u8,
    pub text: String,
    pub cursor: u32,
    pub candidates: Vec<String>,
    pub focused: u32,
    /// Byte offset where completion ghost text begins, or [`NO_GHOST`].
    pub ghost_start: u32,
}

/// Mathematical form of an [`IpcAction`].
pub struct IpcActionView {
    pub kind: u8,
    pub text: Seq<char>,
    pub cursor: u32,
    pub candidates: Seq<Seq<char>>,
    pub focused: u32,
    pub ghost_start: u32,
}

impl View for IpcAction {
    type V = IpcActionView;

    open spec fn view(&self) -> IpcActionView {
        IpcActionView {
            kind: self.kind,
            text: self.text@,
            cursor: self.cursor,
            candidates: crate::dict::entry::strs_view(self.candidates@),
            focused: self.focused,
            ghost_start: self.ghost_start,
        }
    }
}

/// An action of kind `kind` carrying `text`, everything else empty.
pub open spec fn plain_action(kind: u8, text: Seq<char>) -> IpcActionView {
    IpcActionView { kind, text, cursor: 0, candidates: Seq::empty(), focused: 0, ghost_start: NO_GHOST }
}

fn plain(kind: u8, text: &str) -> (r: IpcAction)
    ensures
        r@ == plain_action(kind, text@),
{
    let r = IpcAction {
        kind,
        text: text.to_owned(),
        cursor: 0,
        candidates: Vec::new(),
        focused: 0,
        ghost_start: NO_GHOST,
    };
    assert(r@.candidates =~= Seq::<Seq<char>>::empty());
    r
}

fn plain_empty(kind: u8) -> (r: IpcAction)
    ensures
        r@ == plain_action(kind, Seq::empty()),
{
    let r = IpcAction {
        kind,
        text: String::new(),
        cursor: 0,
        candidates: Vec::new(),
        focused: 0,
        ghost_start: NO_GHOST,
    };
    assert(r@.candidates =~= Seq::<Seq<char>>::empty());
    r
}

impl IpcAction {
    pub fn passthrough() -> (r: Self)
        ensures
            r@ == plain_action(ACTION_PASSTHROUGH, Seq::empty()),
    {
        plain_empty(ACTION_PASSTHROUGH)
    }

    pub fn commit(text: &str) -> (r: Self)
        ensures
            r@ == plain_action(ACTION_COMMIT, text@),
    {
        plain(ACTION_COMMIT, text)
    }

    pub fn update_preedit(text: &str, cursor: u32, ghost_start: u32) -> (r: Self)
        ensures
            r@ == (IpcActionView { cursor, ghost_start, ..plain_action(ACTION_UPDATE_PREEDIT, text@) }),
    {
        let mut r = plain(ACTION_UPDATE_PREEDIT, text);
        r.cursor = cursor;
        r.ghost_start = ghost_start;
        r
    }

    pub fn clear_preedit() -> (r: Self)
        ensures
            r@ == plain_action(ACTION_CLEAR_PREEDIT, Seq::empty()),
    {
        plain_empty(ACTION_CLEAR_PREEDIT)
    }

    pub fn show_candidates(candidates: Vec<String>, focused: u32) -> (r: Self)
        ensures
            r@ == (IpcActionView {
                candidates: crate::dict::entry::strs_view(candidates@),
                focused,
                ..plain_action(ACTION_SHOW_CANDIDATES, Seq::empty())
            }),
    {
        let mut r = plain_empty(ACTION_SHOW_CANDIDATES);
        r.candidates = candidates;
        r.focused = focused;
        r
    }

    pub fn hide_candidates() -> (r: Self)
        ensures
            r@ == plain_action(ACTION_HIDE_CANDIDATES, Seq::empty()),
    {
        plain_empty(ACTION_HIDE_CANDIDATES)
    }

    pub fn update_status(indicator: &str) -> (r: Self)
        ensures
            r@ == plain_action(ACTION_UPDATE_STATUS, indicator@),
    {
        plain(ACTION_UPDATE_STATUS, indicator)
    }
}

/// Input mode, used with `SetInputMode`.
#[derive(Debug, Clone, Copy, PartialEq, Eq, Structural)]
pub enum InputMode {
    Hiragana,
    Katakana,
    WideAscii,
    Ascii,
}

impl InputMode {
    /// The wire number of the mode.
    pub fn number(self) -> (r: u8)
        ensures
            r == input_mode_number(self),
    {
        match self {
            InputMode::Hiragana => 0,
            InputMode::Katakana => 1,
            InputMode::WideAscii => 2,
            InputMode::Ascii => 3,
        }
    }

    /// The mode of a wire number.
    pub fn from_number(n: u8) -> (r: Option<InputMode>)
        ensures
            match r {
                Some(m) => input_mode_number(m) == n,
                None => n > 3,
            },
    {
        if n == 0 {
            Some(InputMode::Hiragana)
        } else if n == 1 {
            Some(InputMode::Katakana)
        } else if n == 2 {
            Some(InputMode::WideAscii)
        } else if n == 3 {
            Some(InputMode::Ascii)
        } else {
            None
        }
    }
}

/// The wire number of an input mode.
pub open spec fn input_mode_number(m: InputMode) -> u8 {
    match m {
        InputMode::Hiragana => 0,
        InputMode::Katakana => 1,
        InputMode::WideAscii => 2,
        InputMode::Ascii => 3,
    }
}

} // verus!
