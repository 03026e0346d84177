//! Key symbol values used on the wire.
//!
//! Printable characters use their Unicode code point directly; special
//! keys use X11 keysym values (0xFF__).

use vstd::prelude::*;

verus! {

pub const SPACE: u32 = 0x0020;
pub const RETURN: u32 = 0xFF0D;
pub const BACKSPACE: u32 = 0xFF08;
pub const TAB: u32 = 0xFF09;
pub const ESCAPE: u32 = 0xFF1B;
pub const DELETE: u32 = 0xFFFF;
pub const LEFT: u32 = 0xFF51;
pub const UP: u32 = 0xFF52;
pub const RIGHT: u32 = 0xFF53;
pub const DOWN: u32 = 0xFF54;
pub const PAGE_UP: u32 = 0xFF55;
pub const PAGE_DOWN: u32 = 0xFF56;
/// F1–F15: F(n) = F1_BASE + (n - 1)
pub const F1_BASE: u32 = 0xFFBE;

} // verus!
