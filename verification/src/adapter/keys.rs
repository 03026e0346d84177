//! Key and modifier translation of the Qt and Wayland adapters.

use vstd::prelude::*;

use crate::ipc::dispatch::DispatchResult;
use crate::ipc::keysym;

verus! {

/// The X11 modifier mask of Qt keyboard modifiers: Shift 0x02000000 → 0x01,
/// Control 0x04000000 → 0x04, Alt 0x08000000 → 0x08, Meta 0x10000000 → 0x40.
pub open spec fn spec_qt_mods_to_x11(qt_mods: u32) -> u32 {
    ((if qt_mods & 0x02000000 != 0 { 0x01u32 } else { 0u32 }) + (if qt_mods & 0x04000000 != 0 { 0x04u32 } else { 0u32 }) + (
    if qt_mods & 0x08000000 != 0 { 0x08u32 } else { 0u32 }) + (if qt_mods & 0x10000000 != 0 { 0x40u32 } else { 0u32 })) as u32
}

/// Converts Qt::KeyboardModifiers to the X11 modifier bitmask.
pub fn qt_mods_to_x11(qt_mods: u32) -> (r: u32)
    ensures
        r == spec_qt_mods_to_x11(qt_mods),
{
    let mut x11: u32 = 0;
    if qt_mods & 0x02000000 != 0 {
        x11 = x11 + 0x01;
    }
    if qt_mods & 0x04000000 != 0 {
        x11 = x11 + 0x04;
    }
    if qt_mods & 0x08000000 != 0 {
        x11 = x11 + 0x08;
    }
    if qt_mods & 0x10000000 != 0 {
        x11 = x11 + 0x40;
    }
    x11
}

/// The X11 keysym of a Qt::Key with Qt::KeyboardModifiers.
pub open spec fn spec_qt_key_to_keysym(qt_key: u32, qt_mods: u32) -> u32 {
    let shift = qt_mods & 0x02000000 != 0;
    if qt_key == 0x01000000 {
        keysym::ESCAPE
    } else if qt_key == 0x01000001 {
        keysym::TAB
    } else if qt_key == 0x01000004 || qt_key == 0x01000005 {
        keysym::RETURN
    } else if qt_key == 0x01000003 {
        keysym::BACKSPACE
    } else if qt_key == 0x01000007 {
        keysym::DELETE
    } else if qt_key == 0x01000012 {
        keysym::LEFT
    } else if qt_key == 0x01000013 {
        keysym::UP
    } else if qt_key == 0x01000014 {
        keysym::RIGHT
    } else if qt_key == 0x01000015 {
        keysym::DOWN
    } else if qt_key == 0x01000016 {
        keysym::PAGE_UP
    } else if qt_key == 0x01000017 {
        keysym::PAGE_DOWN
    } else if qt_key == 0x01000020 {
        0xFFE1
    } else if qt_key == 0x01000021 {
        0xFFE3
    } else if qt_key == 0x01000022 {
        0xFFE7
    } else if qt_key == 0x01000023 {
        0xFFE9
    } else if qt_key == 0x01000024 {
        0xFFE5
    } else if qt_key == 0x01000025 {
        0xFF7F
    } else if qt_key == 0x01000026 {
        0xFF14
    } else if qt_key == 0x01000053 {
        0xFFEB
    } else if qt_key == 0x01000054 {
        0xFFEC
    } else if qt_key == 0x01001103 {
        0xFE03
    } else if 0x01000030 <= qt_key <= 0x0100003B {
        (keysym::F1_BASE + (qt_key - 0x01000030)) as u32
    } else if qt_key == 0x20 {
        keysym::SPACE
    } else if 0x41 <= qt_key <= 0x5A && !shift {
        (qt_key + 0x20) as u32
    } else {
        qt_key
    }
}

/// Converts a Qt::Key value and Qt::KeyboardModifiers to an X11 keysym.
///
/// Modifier and lock keys map to their X11 keysyms (their Qt values would
/// read as Unicode keysyms); letters, which Qt always reports uppercase,
/// become lowercase when Shift is not held.
pub fn qt_key_to_keysym(qt_key: u32, qt_mods: u32) -> (r: u32)
    ensures
        r == spec_qt_key_to_keysym(qt_key, qt_mods),
{
    let shift = qt_mods & 0x02000000 != 0;
    if qt_key == 0x01000000 {
        keysym::ESCAPE
    } else if qt_key == 0x01000001 {
        keysym::TAB
    } else if qt_key == 0x01000004 || qt_key == 0x01000005 {
        keysym::RETURN
    } else if qt_key == 0x01000003 {
        keysym::BACKSPACE
    } else if qt_key == 0x01000007 {
        keysym::DELETE
    } else if qt_key == 0x01000012 {
        keysym::LEFT
    } else if qt_key == 0x01000013 {
        keysym::UP
    } else if qt_key == 0x01000014 {
        keysym::RIGHT
    } else if qt_key == 0x01000015 {
        keysym::DOWN
    } else if qt_key == 0x01000016 {
        keysym::PAGE_UP
    } else if qt_key == 0x01000017 {
        keysym::PAGE_DOWN
    } else if qt_key == 0x01000020 {
        0xFFE1
    } else if qt_key == 0x01000021 {
        0xFFE3
    } else if qt_key == 0x01000022 {
        0xFFE7
    } else if qt_key == 0x01000023 {
        0xFFE9
    } else if qt_key == 0x01000024 {
        0xFFE5
    } else if qt_key == 0x01000025 {
        0xFF7F
    } else if qt_key == 0x01000026 {
        0xFF14
    } else if qt_key == 0x01000053 {
        0xFFEB
    } else if qt_key == 0x01000054 {
        0xFFEC
    } else if qt_key == 0x01001103 {
        0xFE03
    } else if 0x01000030 <= qt_key && qt_key <= 0x0100003B {
        keysym::F1_BASE + (qt_key - 0x01000030)
    } else if qt_key == 0x20 {
        keysym::SPACE
    } else if 0x41 <= qt_key && qt_key <= 0x5A && !shift {
        qt_key + 0x20
    } else {
        qt_key
    }
}

/// The skk modifier mask of the depressed and latched XKB modifiers
/// (Shift bit 0 → 0x01, Control bit 2 → 0x04, Mod1 bit 3 → 0x08,
/// Mod4 bit 6 → 0x40).
pub open spec fn spec_xkb_mods_to_skk(mods_depressed: u32, mods_latched: u32) -> u32 {
    let combined = mods_depressed | mods_latched;
    ((if combined & 0x01 != 0 { 0x01u32 } else { 0u32 }) + (if combined & 0x04 != 0 { 0x04u32 } else { 0u32 }) + (if combined
        & 0x08 != 0 { 0x08u32 } else { 0u32 }) + (if combined & 0x40 != 0 { 0x40u32 } else { 0u32 })) as u32
}

/// Converts the `mods_depressed` + `mods_latched` bitmask of a
/// `wl_keyboard::modifiers` event to the skk modifier bitmask.
pub fn xkb_mods_to_skk(mods_depressed: u32, mods_latched: u32) -> (r: u32)
    ensures
        r == spec_xkb_mods_to_skk(mods_depressed, mods_latched),
{
    let combined = mods_depressed | mods_latched;
    let mut result: u32 = 0;
    if combined & 0x01 != 0 {
        result = result + 0x01;
    }
    if combined & 0x04 != 0 {
        result = result + 0x04;
    }
    if combined & 0x08 != 0 {
        result = result + 0x08;
    }
    if combined & 0x40 != 0 {
        result = result + 0x40;
    }
    result
}

/// Whether a keysym auto-repeats: not NoSymbol, not a modifier
/// (0xFFE1–0xFFEE), not Num_Lock or Scroll_Lock.
pub open spec fn spec_keysym_repeats(keysym: u32) -> bool {
    keysym != 0 && !(0xFFE1 <= keysym <= 0xFFEE) && keysym != 0xFF7F && keysym != 0xFF14
}

/// Returns true if this keysym should participate in auto-repeat.
pub fn keysym_repeats(keysym: u32) -> (r: bool)
    ensures
        r == spec_keysym_repeats(keysym),
{
    if keysym == 0 {
        return false;
    }
    if 0xFFE1 <= keysym && keysym <= 0xFFEE {
        return false;
    }
    if keysym == 0xFF7F || keysym == 0xFF14 {
        return false;
    }
    true
}

/// GDK's Control and Alt (Mod1) modifier bits.  Shift and AltGr are left
/// out so that capital letters and AltGr characters still commit.
pub const MOD_MASK_CTRL_ALT: u32 = 12;

/// Whether the GTK 4 module commits a key that the engine passed through
/// itself, as GTK's simple input context would: only a press that the
/// engine did not consume and that carries neither Control nor Alt.
pub fn passthrough_should_commit(is_press: i32, modifiers: u32, result: &DispatchResult) -> (r: bool)
    ensures
        r == (is_press != 0 && !result.consumed && modifiers & MOD_MASK_CTRL_ALT == 0),
{
    is_press != 0 && !result.consumed && (modifiers & MOD_MASK_CTRL_ALT) == 0
}

} // verus!
