//! Per-input-context data of the XIM servers.

use vstd::prelude::*;

use crate::text::{chars_of, position_char, string_from_chars};

verus! {

/// Per-IC data of the standalone XIM server: a local handle of the
/// reconnecting client, which maps to a daemon session internally.
pub struct IcData {
    pub handle: u32,
}

/// Per-IC data of the in-daemon XIM server.
pub struct DaemonIcData {
    pub session_id: crate::ipc::SessionId,
}

/// Marker for the keyboard obtained from the seat (as opposed to the
/// keyboard grabbed by the input method); only its repeat settings matter.
#[derive(Debug)]
pub struct SeatKbd;

/// Width in pixels of the border of the XIM candidate window.
pub const BORDER_WIDTH: u16 = 1;

/// The selection key shown for row `i`: the `i`-th key, or a space when
/// there are fewer keys than rows.
pub open spec fn label_key(sel_keys: Seq<char>, i: int) -> char {
    if 0 <= i < sel_keys.len() {
        sel_keys[i]
    } else {
        ' '
    }
}

/// The first position of `;` in `s`, if any.
pub open spec fn first_semicolon(s: Seq<char>) -> Option<int> {
    if s.contains(';') {
        Some(choose|i: int| 0 <= i < s.len() && s[i] == ';' && forall|j: int| 0 <= j < i ==> s[j] != ';')
    } else {
        None
    }
}

/// The text of a row of the XIM candidate window: `key: word`, followed by
/// two spaces and `;annotation` when the candidate, written
/// `word;annotation`, has one.
pub open spec fn spec_candidate_label(key: char, cand: Seq<char>) -> Seq<char> {
    match first_semicolon(cand) {
        Some(i) => seq![key, ':', ' '] + cand.take(i) + seq![' ', ' ', ';'] + cand.skip(i + 1),
        None => seq![key, ':', ' '] + cand,
    }
}

fn extend_range(out: &mut Vec<char>, cs: &[char], from: usize, to: usize)
    requires
        from <= to <= cs@.len(),
    ensures
        final(out)@ == old(out)@ + cs@.subrange(from as int, to as int),
{
    let mut i = from;
    while i < to
        invariant
            from <= i <= to <= cs@.len(),
            out@ == old(out)@ + cs@.subrange(from as int, i as int),
        decreases to - i,
    {
        out.push(cs[i]);
        i += 1;
        assert(out@ =~= old(out)@ + cs@.subrange(from as int, i as int));
    }
}

/// The text of row `i` of the XIM candidate window for candidate `cand`.
pub fn candidate_label(sel_keys: &[char], i: usize, cand: &str) -> (r: String)
    ensures
        r@ == spec_candidate_label(label_key(sel_keys@, i as int), cand@),
{
    let key = if i < sel_keys.len() { sel_keys[i] } else { ' ' };
    let cs = chars_of(cand);
    let mut out: Vec<char> = Vec::new();
    out.push(key);
    out.push(':');
    out.push(' ');
    let n = cs.len();
    match position_char(cs.as_slice(), ';') {
        Some(p) => {
            proof {
                let s = cand@;
                assert(s.contains(';')) by {
                    assert(s[p as int] == ';');
                }
                let k = choose|k: int| 0 <= k < s.len() && s[k] == ';' && forall|j: int| 0 <= j < k ==> s[j] != ';';
                if k < p {
                    assert(s[k] == ';');
                } else if k > p {
                    assert(s[p as int] == ';');
                }
                assert(first_semicolon(s) == Some(p as int));
            }
            extend_range(&mut out, cs.as_slice(), 0, p);
            out.push(' ');
            out.push(' ');
            out.push(';');
            extend_range(&mut out, cs.as_slice(), p + 1, n);
            proof {
                assert(cand@.take(p as int) =~= cs@.subrange(0, p as int));
                assert(cand@.skip(p + 1) =~= cs@.subrange(p + 1, n as int));
                assert(out@ =~= seq![key, ':', ' '] + cand@.take(p as int) + seq![' ', ' ', ';'] + cand@.skip(p + 1));
            }
        },
        None => {
            extend_range(&mut out, cs.as_slice(), 0, n);
            proof {
                assert(cs@.subrange(0, n as int) =~= cand@);
                assert(out@ =~= seq![key, ':', ' '] + cand@);
            }
        },
    }
    string_from_chars(out.as_slice())
}

/// Where a window of extent `win` starting at `pos` goes so that it and
/// its border stay on a screen of extent `screen`: no further than the
/// screen allows, and never before 0.
pub open spec fn spec_clamp_to_screen(pos: i32, screen: u16, win: u16) -> i32 {
    let limit: int = if screen >= win + 2 * BORDER_WIDTH { screen - (win + 2 * BORDER_WIDTH) } else { 0 };
    let m: int = if pos < limit { pos as int } else { limit };
    (if m < 0 { 0 } else { m }) as i32
}

/// Keeps the XIM candidate window on the screen along one axis.
pub fn clamp_to_screen(pos: i32, screen: u16, win: u16) -> (r: i32)
    requires
        win + 2 * BORDER_WIDTH <= u16::MAX,
    ensures
        r == spec_clamp_to_screen(pos, screen, win),
{
    let need: u16 = win + BORDER_WIDTH * 2;
    let limit: i32 = if screen >= need { (screen - need) as i32 } else { 0 };
    let m = if pos < limit { pos } else { limit };
    if m < 0 { 0 } else { m }
}

} // verus!
