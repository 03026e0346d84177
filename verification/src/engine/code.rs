//! Character codes: wide ASCII, JIS and Unicode code input.

use vstd::prelude::*;

use crate::dict::file::{euc_jp_decode, euc_jp_decode_bytes};
use crate::text::{byte_len, char_from_u32, char_to_string, chars_of, spec_is_scalar, str_byte_len};

verus! {

/// Full-width form of a printable ASCII character.
pub open spec fn spec_wide_ascii(c: char) -> Option<char> {
    if c == ' ' {
        Some('　')
    } else if '!' <= c && c <= '~' {
        Some(((c as u32) + 0xFEE0) as char)
    } else {
        None
    }
}

/// Exactly the printable ASCII characters have a wide form: the space
/// becomes the ideographic space U+3000, and every character from `!` to
/// `~` becomes the character 0xFEE0 above it.
pub proof fn lemma_wide_ascii_forms(c: char)
    ensures
        spec_wide_ascii(c) is Some <==> (0x20 <= c as u32 && c as u32 <= 0x7E),
        c as u32 == 0x20 ==> spec_wide_ascii(c) == Some('\u{3000}'),
        0x21 <= c as u32 && c as u32 <= 0x7E ==> (spec_wide_ascii(c) matches Some(w) && w as u32 == c as u32 + 0xFEE0),
{
    if 0x21 <= c as u32 && c as u32 <= 0x7E {
        let v: u32 = ((c as u32) + 0xFEE0) as u32;
        assert(0xFF01 <= v <= 0xFF5E);
        assert((v as char) as u32 == v);
    }
}

/// Converts an ASCII character to its full-width (wide) Unicode equivalent.
pub fn to_wide_ascii(c: char) -> (r: Option<char>)
    ensures
        r == spec_wide_ascii(c),
{
    if c == ' ' {
        Some('　')
    } else if '!' <= c && c <= '~' {
        let v = c as u32 + 0xFEE0;
        match char_from_u32(v) {
            Some(w) => {
                proof {
                    vstd::utf8::char_u32_cast(w, v);
                }
                Some(w)
            },
            None => None,
        }
    } else {
        None
    }
}

/// Value of a hexadecimal digit character.
pub open spec fn hex_digit_value(c: char) -> int {
    if '0' <= c && c <= '9' {
        c as int - '0' as int
    } else if 'a' <= c && c <= 'f' {
        c as int - 'a' as int + 10
    } else {
        c as int - 'A' as int + 10
    }
}

pub open spec fn is_hex_digit(c: char) -> bool {
    ('0' <= c && c <= '9') || ('a' <= c && c <= 'f') || ('A' <= c && c <= 'F')
}

pub open spec fn hex_value(s: Seq<char>) -> int
    decreases s.len(),
{
    if s.len() == 0 {
        0
    } else {
        hex_value(s.drop_last()) * 16 + hex_digit_value(s.last())
    }
}

/// `from_str_radix(s, 16)` for an unsigned type whose maximum is `max`: an
/// optional `+`, then one or more hex digits, the value not above `max`.
pub open spec fn spec_parse_hex(s: Seq<char>, max: int) -> Option<int> {
    parse_hex_digits(strip_plus(s), max)
}

/// `s` without one leading `+`.
pub open spec fn strip_plus(s: Seq<char>) -> Seq<char> {
    if s.len() > 0 && s[0] == '+' {
        s.drop_first()
    } else {
        s
    }
}

pub open spec fn all_hex(t: Seq<char>) -> bool {
    forall|i: int| 0 <= i < t.len() ==> is_hex_digit(#[trigger] t[i])
}

/// The value of one or more hex digits, when not above `max`.
pub open spec fn parse_hex_digits(t: Seq<char>, max: int) -> Option<int> {
    if t.len() > 0 && all_hex(t) && hex_value(t) <= max {
        Some(hex_value(t))
    } else {
        None
    }
}

proof fn lemma_hex_value_mono(s: Seq<char>, i: int)
    requires
        forall|k: int| 0 <= k < s.len() ==> is_hex_digit(#[trigger] s[k]),
        0 <= i <= s.len(),
    ensures
        0 <= hex_value(s.take(i)) <= hex_value(s),
    decreases s.len() - i,
{
    if i < s.len() {
        lemma_hex_value_mono(s, i + 1);
        assert(s.take(i + 1).drop_last() =~= s.take(i));
        assert(is_hex_digit(s[i]));
    } else {
        assert(s.take(i) =~= s);
    }
    if i > 0 {
        lemma_hex_value_nonneg(s.take(i));
    }
}

proof fn lemma_hex_value_nonneg(s: Seq<char>)
    requires
        forall|k: int| 0 <= k < s.len() ==> is_hex_digit(#[trigger] s[k]),
    ensures
        hex_value(s) >= 0,
    decreases s.len(),
{
    if s.len() > 0 {
        assert(forall|k: int| 0 <= k < s.drop_last().len() ==> s.drop_last()[k] == s[k]);
        lemma_hex_value_nonneg(s.drop_last());
        assert(is_hex_digit(s.last()));
    }
}

/// `u32::from_str_radix(s, 16)` (or a narrower type when `max` is smaller).
#[verifier::loop_isolation(false)]
fn parse_hex(s: &str, max: u32) -> (r: Option<u32>)
    ensures
        match r {
            Some(v) => spec_parse_hex(s@, max as int) == Some(v as int),
            None => spec_parse_hex(s@, max as int) is None,
        },
{
    let cs = chars_of(s);
    let start: usize = if cs.len() > 0 && cs[0] == '+' { 1 } else { 0 };
    let ghost t = strip_plus(s@);
    assert(t =~= cs@.skip(start as int));
    if cs.len() == start {
        return None;
    }
    let mut value: u32 = 0;
    let mut i: usize = start;
    while i < cs.len()
        invariant
            start <= i <= cs.len(),
            cs@ == s@,
            t == cs@.skip(start as int),
            forall|k: int| 0 <= k < i - start ==> is_hex_digit(#[trigger] t[k]),
            value as int == hex_value(t.take(i - start)),
            value <= max,
        decreases cs.len() - i,
    {
        let c = cs[i];
        assert(t.take(i + 1 - start).drop_last() =~= t.take(i - start));
        assert(t.take(i + 1 - start).last() == c);
        let d: u32 = if '0' <= c && c <= '9' {
            c as u32 - '0' as u32
        } else if 'a' <= c && c <= 'f' {
            c as u32 - 'a' as u32 + 10
        } else if 'A' <= c && c <= 'F' {
            c as u32 - 'A' as u32 + 10
        } else {
            assert(!is_hex_digit(t[i - start]));
            assert(!all_hex(t));
            return None;
        };
        if d > max || value > (max - d) / 16 {
            proof {
                let k = i + 1 - start;
                assert(hex_value(t.take(k as int)) == value * 16 + d);
                assert(value * 16 + d > max) by (nonlinear_arith)
                    requires
                        d > max || value > (max - d) / 16,
                        d <= 15,
                {
                }
                assert forall|x: int| 0 <= x < k implies is_hex_digit(#[trigger] t.take(k as int)[x]) by {
                    assert(t.take(k as int)[x] == t[x]);
                }
                if all_hex(t) {
                    lemma_hex_value_mono(t, k as int);
                    assert(hex_value(t) > max);
                }
                assert(spec_parse_hex(s@, max as int) is None);
            }
            return None;
        }
        proof {
            assert(value * 16 + d <= max) by (nonlinear_arith)
                requires
                    value <= (max - d) / 16,
                    d <= max,
            {
            }
        }
        value = value * 16 + d;
        i += 1;
    }
    assert(t.take(cs.len() - start) =~= t);
    Some(value)
}

/// The text of a Unicode code point given in hex (1–6 bytes of input).
pub open spec fn spec_decode_unicode(hex: Seq<char>) -> Option<Seq<char>> {
    if byte_len(hex) == 0 || byte_len(hex) > 6 {
        None
    } else {
        match spec_parse_hex(hex, u32::MAX as int) {
            Some(v) => if spec_is_scalar(v as u32) {
                Some(seq![v as u32 as char])
            } else {
                None
            },
            None => None,
        }
    }
}

/// Decodes a Unicode code point (1–6 hex digits) to a string.
pub fn decode_unicode_code(hex: &str) -> (r: Option<String>)
    ensures
        match r {
            Some(s) => spec_decode_unicode(hex@) == Some(s@),
            None => spec_decode_unicode(hex@) is None,
        },
{
    let n = str_byte_len(hex);
    if n == 0 || n > 6 {
        return None;
    }
    let code = match parse_hex(hex, u32::MAX) {
        Some(v) => v,
        None => return None,
    };
    match char_from_u32(code) {
        Some(c) => {
            proof {
                vstd::utf8::char_u32_cast(c, code);
            }
            Some(char_to_string(c))
        },
        None => None,
    }
}

/// The text of a JIS X 0208 code given as 4 hex digits: each byte must be in
/// 0x21–0x7E; with 0x80 added to each, the EUC-JP bytes are decoded.
pub open spec fn spec_decode_jis(hex: Seq<char>) -> Option<Seq<char>> {
    if byte_len(hex) != 4 {
        None
    } else {
        match spec_parse_hex(hex, 0xFFFF) {
            Some(code) => {
                let b1 = code / 256;
                let b2 = code % 256;
                if 0x21 <= b1 <= 0x7E && 0x21 <= b2 <= 0x7E {
                    let (text, had_errors) = euc_jp_decode(seq![(b1 + 0x80) as u8, (b2 + 0x80) as u8]);
                    if had_errors {
                        None
                    } else {
                        Some(text)
                    }
                } else {
                    None
                }
            },
            None => None,
        }
    }
}

/// Decodes a 4-digit hex JIS X 0208 code to a Unicode string via EUC-JP
/// (e.g. "2422" → あ).
pub fn decode_jis_code(hex: &str) -> (r: Option<String>)
    ensures
        match r {
            Some(s) => spec_decode_jis(hex@) == Some(s@),
            None => spec_decode_jis(hex@) is None,
        },
{
    if str_byte_len(hex) != 4 {
        return None;
    }
    let code = match parse_hex(hex, 0xFFFF) {
        Some(v) => v,
        None => return None,
    };
    let b1 = code / 256;
    let b2 = code % 256;
    if !(0x21 <= b1 && b1 <= 0x7E) || !(0x21 <= b2 && b2 <= 0x7E) {
        return None;
    }
    let euc: [u8; 2] = [(b1 + 0x80) as u8, (b2 + 0x80) as u8];
    assert(euc@ =~= seq![(b1 + 0x80) as u8, (b2 + 0x80) as u8]);
    let (decoded, had_errors) = euc_jp_decode_bytes(&euc);
    if had_errors {
        None
    } else {
        Some(decoded)
    }
}

} // verus!
