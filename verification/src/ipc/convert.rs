//! Conversions between engine types and the wire types.

use vstd::prelude::*;

use crate::dict::entry::{cands_view, Candidate, CandidateView};
use crate::engine::{ActionView, EngineAction};
use crate::ipc::keysym;
use crate::ipc::{
    plain_action, IpcAction, IpcActionView, ACTION_CLEAR_PREEDIT, ACTION_COMMIT, ACTION_HIDE_CANDIDATES,
    ACTION_PASSTHROUGH, ACTION_SHOW_CANDIDATES, ACTION_UPDATE_PREEDIT, ACTION_UPDATE_STATUS, NO_GHOST,
};
use crate::key::{Key, KeyEvent, Modifiers, ALT_BIT, CTRL_BIT, META_BIT, SHIFT_BIT};
use crate::text::{char_from_u32, concat};

verus! {

// ── EngineAction → IpcAction ─────────────────────────────────────────────────

/// A candidate as listed on the wire: the word, then `;` and the
/// annotation when there is one.
pub open spec fn candidate_label(c: CandidateView) -> Seq<char> {
    match c.annotation {
        Some(a) => c.word + seq![';'] + a,
        None => c.word,
    }
}

/// The wire form of an engine action.
pub open spec fn ipc_of_action(a: ActionView) -> IpcActionView {
    match a {
        ActionView::Commit(t) => plain_action(ACTION_COMMIT, t),
        ActionView::UpdatePreedit(t, c) => IpcActionView { cursor: c as u32, ..plain_action(ACTION_UPDATE_PREEDIT, t) },
        ActionView::ClearPreedit => plain_action(ACTION_CLEAR_PREEDIT, Seq::empty()),
        ActionView::ShowCandidates(cs, f, keys) => IpcActionView {
            candidates: cs.map_values(|c: CandidateView| candidate_label(c)),
            focused: f as u32,
            ..plain_action(ACTION_SHOW_CANDIDATES, keys)
        },
        ActionView::HideCandidates => plain_action(ACTION_HIDE_CANDIDATES, Seq::empty()),
        ActionView::UpdateStatus(t) => plain_action(ACTION_UPDATE_STATUS, t),
        ActionView::Passthrough => plain_action(ACTION_PASSTHROUGH, Seq::empty()),
    }
}

fn candidate_labels(cs: &Vec<Candidate>) -> (r: Vec<String>)
    ensures
        crate::dict::entry::strs_view(r@) == cands_view(cs@).map_values(|c: CandidateView| candidate_label(c)),
{
    let mut r: Vec<String> = Vec::new();
    let mut i: usize = 0;
    while i < cs.len()
        invariant
            i <= cs.len(),
            crate::dict::entry::strs_view(r@) == cands_view(cs@.take(i as int)).map_values(|c: CandidateView| candidate_label(c)),
        decreases cs.len() - i,
    {
        let c = &cs[i];
        proof {
            reveal_strlit(";");
        }
        let label = match &c.annotation {
            Some(a) => {
                let w = concat(c.word.as_str(), ";");
                concat(w.as_str(), a.as_str())
            },
            None => c.word.clone(),
        };
        assert(label@ == candidate_label(cs@[i as int]@));
        let ghost r0 = crate::dict::entry::strs_view(r@);
        r.push(label);
        proof {
            assert(crate::dict::entry::strs_view(r@) =~= r0.push(label@));
            assert(cands_view(cs@.take(i + 1)) =~= cands_view(cs@.take(i as int)).push(cs@[i as int]@));
            assert(cs@.take(i + 1) =~= cs@.take(i as int).push(cs@[i as int]));
            assert(crate::dict::entry::strs_view(r@) =~= cands_view(cs@.take(i + 1)).map_values(|c: CandidateView| candidate_label(c)));
        }
        i += 1;
    }
    assert(cs@.take(cs.len() as int) =~= cs@);
    r
}

impl vstd::std_specs::convert::FromSpecImpl<EngineAction> for IpcAction {
    open spec fn obeys_from_spec() -> bool {
        false
    }

    open spec fn from_spec(a: EngineAction) -> IpcAction {
        choose|r: IpcAction| r@ == ipc_of_action(a@)
    }
}

impl From<EngineAction> for IpcAction {
    /// The wire form of an engine action; candidates carry their
    /// annotation after `;`, and the selection keys travel in `text`.
    fn from(action: EngineAction) -> (r: Self)
        ensures
            r@ == ipc_of_action(action@),
    {
        match action {
            EngineAction::Commit(text) => IpcAction::commit(text.as_str()),
            EngineAction::UpdatePreedit(p) => IpcAction::update_preedit(p.text.as_str(), p.cursor as u32, NO_GHOST),
            EngineAction::ClearPreedit => IpcAction::clear_preedit(),
            EngineAction::ShowCandidates(candidates, focused, sel_keys) => {
                let words = candidate_labels(&candidates);
                let mut action = IpcAction::show_candidates(words, focused as u32);
                action.text = sel_keys;
                action
            },
            EngineAction::HideCandidates => IpcAction::hide_candidates(),
            EngineAction::UpdateStatus(indicator) => IpcAction::update_status(indicator.as_str()),
            EngineAction::Passthrough => IpcAction::passthrough(),
        }
    }
}

// ── (key_sym, modifiers, is_press) → KeyEvent ────────────────────────────────

/// Whether `u` is a Unicode scalar value.
pub open spec fn is_scalar(u: u32) -> bool {
    crate::text::spec_is_scalar(u)
}

/// The key of a keysym.
pub open spec fn spec_keysym_to_key(sym: u32) -> Key {
    if sym == keysym::SPACE {
        Key::Space
    } else if sym == keysym::RETURN {
        Key::Return
    } else if sym == keysym::BACKSPACE {
        Key::BackSpace
    } else if sym == keysym::TAB {
        Key::Tab
    } else if sym == keysym::ESCAPE {
        Key::Escape
    } else if sym == keysym::DELETE {
        Key::Delete
    } else if sym == keysym::LEFT {
        Key::Left
    } else if sym == keysym::UP {
        Key::Up
    } else if sym == keysym::RIGHT {
        Key::Right
    } else if sym == keysym::DOWN {
        Key::Down
    } else if sym == keysym::PAGE_UP {
        Key::PageUp
    } else if sym == keysym::PAGE_DOWN {
        Key::PageDown
    } else if keysym::F1_BASE <= sym < keysym::F1_BASE + 15 {
        Key::F((sym - keysym::F1_BASE + 1) as u8)
    } else if 0x0100_0000 <= sym < 0x0200_0000 {
        // Unicode keysym: 0x01000000 | code point.
        if is_scalar((sym - 0x0100_0000) as u32) {
            Key::Char(((sym - 0x0100_0000) as u32) as char)
        } else {
            Key::Other(sym)
        }
    } else if (0x20 <= sym <= 0xFEFF) || (0x1_0000 <= sym <= 0x10_FFFF) {
        // A code point; 0xFF00–0xFFFF are X11 special keysyms.
        if is_scalar(sym) { Key::Char(sym as char) } else { Key::Other(sym) }
    } else {
        Key::Other(sym)
    }
}

/// The modifiers of an X11/GDK modifier mask: Shift 0x01, Control 0x04,
/// Alt 0x08, Meta/Super 0x40.
pub open spec fn spec_modifiers_from_raw(raw: u32) -> Modifiers {
    Modifiers {
        bits: ((if raw & 0x01 != 0 { SHIFT_BIT } else { 0u8 }) + (if raw & 0x04 != 0 { CTRL_BIT } else { 0u8 }) + (if raw
            & 0x08 != 0 { ALT_BIT } else { 0u8 }) + (if raw & 0x40 != 0 { META_BIT } else { 0u8 })) as u8,
    }
}

/// Converts a raw key event (X11 keysym + modifier bitmask + press flag)
/// into a [`KeyEvent`].
pub fn key_event_from_raw(key_sym: u32, modifiers_raw: u32, is_press: bool) -> (r: KeyEvent)
    ensures
        r == (KeyEvent { key: spec_keysym_to_key(key_sym), modifiers: spec_modifiers_from_raw(modifiers_raw), is_press }),
{
    let key = keysym_to_key(key_sym);
    let modifiers = modifiers_from_raw(modifiers_raw);
    if is_press {
        KeyEvent::press(key, modifiers)
    } else {
        KeyEvent::release(key, modifiers)
    }
}

/// The key of a keysym.
pub fn keysym_to_key(sym: u32) -> (r: Key)
    ensures
        r == spec_keysym_to_key(sym),
{
    if sym == keysym::SPACE {
        Key::Space
    } else if sym == keysym::RETURN {
        Key::Return
    } else if sym == keysym::BACKSPACE {
        Key::BackSpace
    } else if sym == keysym::TAB {
        Key::Tab
    } else if sym == keysym::ESCAPE {
        Key::Escape
    } else if sym == keysym::DELETE {
        Key::Delete
    } else if sym == keysym::LEFT {
        Key::Left
    } else if sym == keysym::UP {
        Key::Up
    } else if sym == keysym::RIGHT {
        Key::Right
    } else if sym == keysym::DOWN {
        Key::Down
    } else if sym == keysym::PAGE_UP {
        Key::PageUp
    } else if sym == keysym::PAGE_DOWN {
        Key::PageDown
    } else if keysym::F1_BASE <= sym && sym < keysym::F1_BASE + 15 {
        Key::F((sym - keysym::F1_BASE + 1) as u8)
    } else if 0x0100_0000 <= sym && sym < 0x0200_0000 {
        match char_from_u32(sym - 0x0100_0000) {
            Some(ch) => Key::Char(ch),
            None => Key::Other(sym),
        }
    } else if (0x20 <= sym && sym <= 0xFEFF) || (0x1_0000 <= sym && sym <= 0x10_FFFF) {
        match char_from_u32(sym) {
            Some(ch) => Key::Char(ch),
            None => Key::Other(sym),
        }
    } else {
        Key::Other(sym)
    }
}

/// The modifiers of a raw modifier mask.
pub fn modifiers_from_raw(raw: u32) -> (r: Modifiers)
    ensures
        r == spec_modifiers_from_raw(raw),
{
    let mut bits: u8 = 0;
    if raw & 0x01 != 0 {
        bits = bits + SHIFT_BIT;
    }
    if raw & 0x04 != 0 {
        bits = bits + CTRL_BIT;
    }
    if raw & 0x08 != 0 {
        bits = bits + ALT_BIT;
    }
    if raw & 0x40 != 0 {
        bits = bits + META_BIT;
    }
    Modifiers { bits }
}

} // verus!
