//! Numeric conversion types.

use vstd::prelude::*;

verus! {

/// Numeric conversion type, corresponding to the `#n` or `#x` marker in SKK
/// dictionary candidates.
///
/// Standard DDSKK types use digit suffixes (#0–#5, #9).
/// y2skk-specific extensions use letter suffixes (#6–#c).
#[derive(Debug, Clone, Copy, PartialEq, Eq, Structural, Hash)]
pub enum NumType {
    /// `#0` — Raw ASCII digits as-is (e.g. "1234").
    Raw,
    /// `#1` — Full-width digits (e.g. "１２３４").
    Zenkaku,
    /// `#2` — Kanji positional notation (e.g. "一二三四").
    KanjiPos,
    /// `#3` — Kanji with place names (e.g. "千二百三十四").
    KanjiSeq,
    /// `#5` — Daiji (formal kanji for financial use, e.g. "壱阡弐百参拾四").
    Daiji,
    /// `#9` — Shogi notation (first digit full-width, rest kanji).
    Shogi,
    /// `#6` — Roman numerals using Unicode dedicated characters, uppercase.
    RomanUpperUnicode,
    /// `#7` — Roman numerals using Unicode dedicated characters, lowercase.
    RomanLowerUnicode,
    /// `#a` — Roman numerals using ASCII letters, uppercase (e.g. "MCCXXXIV").
    RomanUpperAscii,
    /// `#b` — Roman numerals using ASCII letters, lowercase (e.g. "mccxxxiv").
    RomanLowerAscii,
    /// `#c` — Circled numerals (e.g. "①", "⑳").  Only representable for 1–50.
    Circled,
}

/// The type of a marker character.
pub open spec fn spec_from_marker(ch: char) -> Option<NumType> {
    if ch == '0' {
        Some(NumType::Raw)
    } else if ch == '1' {
        Some(NumType::Zenkaku)
    } else if ch == '2' {
        Some(NumType::KanjiPos)
    } else if ch == '3' {
        Some(NumType::KanjiSeq)
    } else if ch == '5' {
        Some(NumType::Daiji)
    } else if ch == '9' {
        Some(NumType::Shogi)
    } else if ch == '6' {
        Some(NumType::RomanUpperUnicode)
    } else if ch == '7' {
        Some(NumType::RomanLowerUnicode)
    } else if ch == 'a' {
        Some(NumType::RomanUpperAscii)
    } else if ch == 'b' {
        Some(NumType::RomanLowerAscii)
    } else if ch == 'c' {
        Some(NumType::Circled)
    } else {
        None
    }
}

/// The marker character of a type.
pub open spec fn spec_marker(t: NumType) -> char {
    match t {
        NumType::Raw => '0',
        NumType::Zenkaku => '1',
        NumType::KanjiPos => '2',
        NumType::KanjiSeq => '3',
        NumType::Daiji => '5',
        NumType::Shogi => '9',
        NumType::RomanUpperUnicode => '6',
        NumType::RomanLowerUnicode => '7',
        NumType::RomanUpperAscii => 'a',
        NumType::RomanLowerAscii => 'b',
        NumType::Circled => 'c',
    }
}

/// The types used to synthesize candidates, standard ones first.
pub open spec fn spec_synth_types() -> Seq<NumType> {
    seq![
        NumType::Raw,
        NumType::Zenkaku,
        NumType::KanjiPos,
        NumType::KanjiSeq,
        NumType::Daiji,
        NumType::Shogi,
        NumType::RomanUpperUnicode,
        NumType::RomanLowerUnicode,
        NumType::RomanUpperAscii,
        NumType::RomanLowerAscii,
        NumType::Circled,
    ]
}

impl NumType {
    /// Converts the marker character immediately following `#` in a dict entry
    /// to the corresponding `NumType`.  Returns `None` for unknown markers and
    /// for `#4`, which is recursive numeric conversion (handled by
    /// `expand_with_recursive_lookup`).
    pub fn from_marker(ch: char) -> (r: Option<Self>)
        ensures
            r == spec_from_marker(ch),
    {
        match ch {
            '0' => Some(Self::Raw),
            '1' => Some(Self::Zenkaku),
            '2' => Some(Self::KanjiPos),
            '3' => Some(Self::KanjiSeq),
            '5' => Some(Self::Daiji),
            '9' => Some(Self::Shogi),
            '6' => Some(Self::RomanUpperUnicode),
            '7' => Some(Self::RomanLowerUnicode),
            'a' => Some(Self::RomanUpperAscii),
            'b' => Some(Self::RomanLowerAscii),
            'c' => Some(Self::Circled),
            _ => None,
        }
    }

    /// Returns the marker character for this type.
    pub fn marker(self) -> (r: char)
        ensures
            r == spec_marker(self),
    {
        match self {
            Self::Raw => '0',
            Self::Zenkaku => '1',
            Self::KanjiPos => '2',
            Self::KanjiSeq => '3',
            Self::Daiji => '5',
            Self::Shogi => '9',
            Self::RomanUpperUnicode => '6',
            Self::RomanLowerUnicode => '7',
            Self::RomanUpperAscii => 'a',
            Self::RomanLowerAscii => 'b',
            Self::Circled => 'c',
        }
    }

    /// All types used for synthesizing candidates when the midashi contains a
    /// digit run.  Standard types come first for natural ordering.
    pub fn synth_types() -> (r: Vec<NumType>)
        ensures
            r@ == spec_synth_types(),
    {
        let r = vec![
            Self::Raw,
            Self::Zenkaku,
            Self::KanjiPos,
            Self::KanjiSeq,
            Self::Daiji,
            Self::Shogi,
            Self::RomanUpperUnicode,
            Self::RomanLowerUnicode,
            Self::RomanUpperAscii,
            Self::RomanLowerAscii,
            Self::Circled,
        ];
        assert(r@ =~= spec_synth_types());
        r
    }
}

/// Reading a marker back gives the type it was written for.
pub proof fn lemma_marker_roundtrip(t: NumType)
    ensures
        spec_from_marker(spec_marker(t)) == Some(t),
{
}

} // verus!
