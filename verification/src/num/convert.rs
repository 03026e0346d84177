//! Conversion of ASCII digit strings to the numeral styles of `NumType`.

use vstd::prelude::*;

use crate::num::types::NumType;
use crate::text::{char_from_scalar, chars_of, push_char, spec_is_ascii_digit, spec_to_ascii_lowercase};

verus! {

// ── Specification ────────────────────────────────────────────────────────────

/// Decimal value of a digit string.
pub open spec fn digits_value(s: Seq<char>) -> int
    decreases s.len(),
{
    if s.len() == 0 {
        0
    } else {
        digits_value(s.drop_last()) * 10 + (s.last() as int - '0' as int)
    }
}

pub open spec fn all_digits(s: Seq<char>) -> bool {
    forall|i: int| 0 <= i < s.len() ==> spec_is_ascii_digit(#[trigger] s[i])
}

/// `str::parse::<u64>`: an optional `+`, then one or more decimal digits,
/// the value fitting in `u64`.
pub open spec fn spec_parse_u64(s: Seq<char>) -> Option<u64> {
    let t = if s.len() > 0 && s[0] == '+' { s.drop_first() } else { s };
    if t.len() > 0 && all_digits(t) && digits_value(t) <= u64::MAX {
        Some(digits_value(t) as u64)
    } else {
        None
    }
}

/// Full-width form of an ASCII digit; other characters unchanged.
pub open spec fn zenkaku_char(c: char) -> char {
    if spec_is_ascii_digit(c) {
        ((c as u32) + 0xFEE0) as char
    } else {
        c
    }
}

/// Kanji digit `d` (0–9).
pub open spec fn kanji_digit(d: int) -> char {
    if d == 0 {
        '〇'
    } else if d == 1 {
        '一'
    } else if d == 2 {
        '二'
    } else if d == 3 {
        '三'
    } else if d == 4 {
        '四'
    } else if d == 5 {
        '五'
    } else if d == 6 {
        '六'
    } else if d == 7 {
        '七'
    } else if d == 8 {
        '八'
    } else {
        '九'
    }
}

/// Daiji digit `d` (0–9).
pub open spec fn daiji_digit(d: int) -> char {
    if d == 0 {
        '零'
    } else if d == 1 {
        '壱'
    } else if d == 2 {
        '弐'
    } else if d == 3 {
        '参'
    } else if d == 4 {
        '四'
    } else if d == 5 {
        '伍'
    } else if d == 6 {
        '六'
    } else if d == 7 {
        '七'
    } else if d == 8 {
        '八'
    } else {
        '九'
    }
}

/// Kanji form of an ASCII digit; other characters unchanged.
pub open spec fn positional_char(c: char) -> char {
    if spec_is_ascii_digit(c) {
        kanji_digit(c as int - '0' as int)
    } else {
        c
    }
}

/// Kanji form of a non-zero ASCII digit; other characters unchanged.
pub open spec fn shogi_rest_char(c: char) -> char {
    if '1' <= c && c <= '9' {
        kanji_digit(c as int - '0' as int)
    } else {
        c
    }
}

/// Digit characters and place names of the sequential styles.
pub open spec fn style_digit(d: int, daiji: bool) -> char {
    if daiji {
        daiji_digit(d)
    } else {
        kanji_digit(d)
    }
}

pub open spec fn thousand_name(daiji: bool) -> char {
    if daiji {
        '阡'
    } else {
        '千'
    }
}

pub open spec fn ten_name(daiji: bool) -> char {
    if daiji {
        '拾'
    } else {
        '十'
    }
}

/// One place of a group: nothing for 0, the place name alone for 1 in the
/// standard style, else the digit and the place name.
pub open spec fn place(d: int, name: char, daiji: bool) -> Seq<char> {
    if d == 0 {
        Seq::empty()
    } else if d == 1 && !daiji {
        seq![name]
    } else {
        seq![style_digit(d, daiji), name]
    }
}

/// A group 1–9999 with place names (千/阡, 百, 十/拾).
pub open spec fn group_text(n: int, daiji: bool) -> Seq<char> {
    place(n / 1000, thousand_name(daiji), daiji) + place((n % 1000) / 100, '百', daiji) + place(
        (n % 100) / 10,
        ten_name(daiji),
        daiji,
    ) + (if n % 10 > 0 {
        seq![style_digit(n % 10, daiji)]
    } else {
        Seq::empty()
    })
}

/// A group followed by a large unit, or nothing when the group is 0.
pub open spec fn large_part(g: int, unit: char, daiji: bool) -> Seq<char> {
    if g > 0 {
        group_text(g, daiji) + seq![unit]
    } else {
        Seq::empty()
    }
}

/// A number in groups of four digits separated by 京, 兆, 億 and 万.
pub open spec fn kanji_number_spec(n: int, daiji: bool) -> Seq<char> {
    if n == 0 {
        seq![style_digit(0, daiji)]
    } else {
        large_part(n / 10_000_000_000_000_000, '京', daiji)
            + large_part((n % 10_000_000_000_000_000) / 1_000_000_000_000, '兆', daiji)
            + large_part((n % 1_000_000_000_000) / 100_000_000, '億', daiji)
            + large_part((n % 100_000_000) / 10_000, '万', daiji)
            + (if n % 10_000 > 0 {
            group_text(n % 10_000, daiji)
        } else {
            Seq::empty()
        })
    }
}

// ── Reading a kanji numeral back ────────────────────────────────────────────

/// The value of a digit character of a kanji numeral, in either style.
pub open spec fn numeral_digit(c: char) -> Option<int> {
    if c == '〇' || c == '零' {
        Some(0)
    } else if c == '一' || c == '壱' {
        Some(1)
    } else if c == '二' || c == '弐' {
        Some(2)
    } else if c == '三' || c == '参' {
        Some(3)
    } else if c == '四' {
        Some(4)
    } else if c == '五' || c == '伍' {
        Some(5)
    } else if c == '六' {
        Some(6)
    } else if c == '七' {
        Some(7)
    } else if c == '八' {
        Some(8)
    } else if c == '九' {
        Some(9)
    } else {
        None
    }
}

/// The value of a place name within a group of four digits.
pub open spec fn numeral_place(c: char) -> Option<int> {
    if c == '十' || c == '拾' {
        Some(10)
    } else if c == '百' {
        Some(100)
    } else if c == '千' || c == '阡' {
        Some(1000)
    } else {
        None
    }
}

/// The power of ten of a large unit.
pub open spec fn numeral_unit(c: char) -> Option<int> {
    if c == '万' {
        Some(10_000)
    } else if c == '億' {
        Some(100_000_000)
    } else if c == '兆' {
        Some(1_000_000_000_000)
    } else if c == '京' {
        Some(10_000_000_000_000_000)
    } else {
        None
    }
}

/// One character of a numeral read into the state (value of the finished
/// large units, value of the finished places of the current group, digit
/// not yet given a place): a place name multiplies the pending digit (one
/// when there is none); a large unit multiplies the current group.
pub open spec fn numeral_step(st: (int, int, int), c: char) -> (int, int, int) {
    match numeral_digit(c) {
        Some(d) => (st.0, st.1, d),
        None => match numeral_place(c) {
            Some(p) => (st.0, st.1 + (if st.2 == 0 { 1 } else { st.2 }) * p, 0int),
            None => match numeral_unit(c) {
                Some(u) => (st.0 + (st.1 + st.2) * u, 0int, 0int),
                None => st,
            },
        },
    }
}

/// A numeral read from left to right from state `st`.
pub open spec fn numeral_run(st: (int, int, int), s: Seq<char>) -> (int, int, int)
    decreases s.len(),
{
    if s.len() == 0 {
        st
    } else {
        numeral_run(numeral_step(st, s[0]), s.drop_first())
    }
}

/// The number a kanji numeral reads as.
pub open spec fn numeral_value(s: Seq<char>) -> int {
    let st = numeral_run((0int, 0int, 0int), s);
    st.0 + st.1 + st.2
}

proof fn lemma_run_concat(st: (int, int, int), a: Seq<char>, b: Seq<char>)
    ensures
        numeral_run(st, a + b) == numeral_run(numeral_run(st, a), b),
    decreases a.len(),
{
    if a.len() == 0 {
        assert(a + b =~= b);
    } else {
        assert((a + b)[0] == a[0]);
        assert((a + b).drop_first() =~= a.drop_first() + b);
        lemma_run_concat(numeral_step(st, a[0]), a.drop_first(), b);
    }
}

proof fn lemma_run_one(st: (int, int, int), c: char)
    ensures
        numeral_run(st, seq![c]) == numeral_step(st, c),
{
    assert(seq![c].drop_first() =~= Seq::<char>::empty());
    assert(seq![c][0] == c);
    assert(numeral_run(numeral_step(st, c), Seq::<char>::empty()) == numeral_step(st, c));
}

proof fn lemma_style_digit(d: int, daiji: bool)
    requires
        0 <= d <= 9,
    ensures
        numeral_digit(style_digit(d, daiji)) == Some(d),
{
}

proof fn lemma_place_run(t: int, s0: int, d: int, name: char, p: int, daiji: bool)
    requires
        0 <= d <= 9,
        numeral_digit(name) is None,
        numeral_place(name) == Some(p),
    ensures
        numeral_run((t, s0, 0int), place(d, name, daiji)) == (t, s0 + d * p, 0int),
{
    if d == 0 {
        assert(d * p == 0);
    } else if d == 1 && !daiji {
        lemma_run_one((t, s0, 0int), name);
    } else {
        let dc = style_digit(d, daiji);
        lemma_style_digit(d, daiji);
        assert(seq![dc, name] =~= seq![dc] + seq![name]);
        lemma_run_concat((t, s0, 0int), seq![dc], seq![name]);
        lemma_run_one((t, s0, 0int), dc);
        lemma_run_one((t, s0, d), name);
    }
}

proof fn lemma_group_run(t: int, g: int, daiji: bool)
    requires
        0 <= g <= 9999,
    ensures
        numeral_run((t, 0int, 0int), group_text(g, daiji)) == (t, g - g % 10, g % 10),
{
    let p1 = place(g / 1000, thousand_name(daiji), daiji);
    let p2 = place((g % 1000) / 100, '百', daiji);
    let p3 = place((g % 100) / 10, ten_name(daiji), daiji);
    let p4: Seq<char> = if g % 10 > 0 { seq![style_digit(g % 10, daiji)] } else { Seq::empty() };
    let d1 = g / 1000;
    let d2 = (g % 1000) / 100;
    let d3 = (g % 100) / 10;
    assert(group_text(g, daiji) == p1 + p2 + p3 + p4);
    lemma_run_concat((t, 0int, 0int), p1 + p2 + p3, p4);
    lemma_run_concat((t, 0int, 0int), p1 + p2, p3);
    lemma_run_concat((t, 0int, 0int), p1, p2);
    lemma_place_run(t, 0, d1, thousand_name(daiji), 1000, daiji);
    lemma_place_run(t, d1 * 1000, d2, '百', 100, daiji);
    lemma_place_run(t, d1 * 1000 + d2 * 100, d3, ten_name(daiji), 10, daiji);
    let s3 = d1 * 1000 + d2 * 100 + d3 * 10;
    if g % 10 > 0 {
        lemma_style_digit(g % 10, daiji);
        lemma_run_one((t, s3, 0int), style_digit(g % 10, daiji));
    }
    assert(s3 == g - g % 10);
}

proof fn lemma_large_run(t: int, g: int, unit: char, u: int, daiji: bool)
    requires
        0 <= g <= 9999,
        numeral_digit(unit) is None,
        numeral_place(unit) is None,
        numeral_unit(unit) == Some(u),
    ensures
        numeral_run((t, 0int, 0int), large_part(g, unit, daiji)) == (t + g * u, 0int, 0int),
{
    if g == 0 {
        assert(g * u == 0);
    } else {
        lemma_run_concat((t, 0int, 0int), group_text(g, daiji), seq![unit]);
        lemma_group_run(t, g, daiji);
        lemma_run_one((t, g - g % 10, g % 10), unit);
    }
}

proof fn lemma_split_group(x: int, big: int, small: int)
    requires
        0 <= x,
        0 < small,
        big == small * 10000,
    ensures
        0 <= (x % big) / small <= 9999,
        x % big == ((x % big) / small) * small + x % small,
{
    let r = x % big;
    vstd::arithmetic::div_mod::lemma_mod_bound(x, big);
    vstd::arithmetic::div_mod::lemma_div_pos_is_pos(r, small);
    vstd::arithmetic::div_mod::lemma_multiply_divide_lt(r, small, 10000);
    vstd::arithmetic::div_mod::lemma_fundamental_div_mod(r, small);
    vstd::arithmetic::div_mod::lemma_mod_mod(x, small, 10000);
    assert(small * (r / small) == (r / small) * small) by (nonlinear_arith);
}

proof fn lemma_four_digit_groups(n: int)
    requires
        0 <= n <= u64::MAX,
    ensures
        0 <= n / 10_000_000_000_000_000 <= 9999,
        0 <= (n % 10_000_000_000_000_000) / 1_000_000_000_000 <= 9999,
        0 <= (n % 1_000_000_000_000) / 100_000_000 <= 9999,
        0 <= (n % 100_000_000) / 10_000 <= 9999,
        0 <= n % 10_000 <= 9999,
        n == (n / 10_000_000_000_000_000) * 10_000_000_000_000_000
            + ((n % 10_000_000_000_000_000) / 1_000_000_000_000) * 1_000_000_000_000
            + ((n % 1_000_000_000_000) / 100_000_000) * 100_000_000
            + ((n % 100_000_000) / 10_000) * 10_000 + n % 10_000,
{
    let a: int = 10_000_000_000_000_000;
    vstd::arithmetic::div_mod::lemma_fundamental_div_mod(n, a);
    vstd::arithmetic::div_mod::lemma_div_pos_is_pos(n, a);
    vstd::arithmetic::div_mod::lemma_multiply_divide_lt(n, a, 10000);
    assert(a * (n / a) == (n / a) * a) by (nonlinear_arith);
    lemma_split_group(n, 10_000_000_000_000_000, 1_000_000_000_000);
    lemma_split_group(n, 1_000_000_000_000, 100_000_000);
    lemma_split_group(n, 100_000_000, 10_000);
    vstd::arithmetic::div_mod::lemma_mod_bound(n, 10_000);
}

/// The kanji numeral of `n`, in either style, reads back as `n`: each place
/// name multiplies its digit, each large unit (万 10^4, 億 10^8, 兆 10^12,
/// 京 10^16) multiplies its group by its own power of ten, so distinct
/// numbers give distinct numerals.
pub proof fn lemma_kanji_number_reads_back(n: int, daiji: bool)
    requires
        0 <= n <= u64::MAX,
    ensures
        numeral_value(kanji_number_spec(n, daiji)) == n,
{
    if n == 0 {
        lemma_style_digit(0, daiji);
        lemma_run_one((0int, 0int, 0int), style_digit(0, daiji));
    } else {
        lemma_four_digit_groups(n);
        let a = n / 10_000_000_000_000_000;
        let b = (n % 10_000_000_000_000_000) / 1_000_000_000_000;
        let c = (n % 1_000_000_000_000) / 100_000_000;
        let d = (n % 100_000_000) / 10_000;
        let e = n % 10_000;
        let pa = large_part(a, '京', daiji);
        let pb = large_part(b, '兆', daiji);
        let pc = large_part(c, '億', daiji);
        let pd = large_part(d, '万', daiji);
        let pe: Seq<char> = if e > 0 { group_text(e, daiji) } else { Seq::empty() };
        assert(kanji_number_spec(n, daiji) == pa + pb + pc + pd + pe);
        lemma_run_concat((0int, 0int, 0int), pa + pb + pc + pd, pe);
        lemma_run_concat((0int, 0int, 0int), pa + pb + pc, pd);
        lemma_run_concat((0int, 0int, 0int), pa + pb, pc);
        lemma_run_concat((0int, 0int, 0int), pa, pb);
        let ta = a * 10_000_000_000_000_000;
        let tb = ta + b * 1_000_000_000_000;
        let tc = tb + c * 100_000_000;
        let td = tc + d * 10_000;
        lemma_large_run(0, a, '京', 10_000_000_000_000_000, daiji);
        lemma_large_run(ta, b, '兆', 1_000_000_000_000, daiji);
        lemma_large_run(tb, c, '億', 100_000_000, daiji);
        lemma_large_run(tc, d, '万', 10_000, daiji);
        if e > 0 {
            lemma_group_run(td, e, daiji);
        }
        assert(td + e == n);
    }
}

/// The characters of the standard style that the formal (daiji) style
/// replaces because they are easily altered: 一 二 三 十 千.
pub open spec fn alterable_char(c: char) -> bool {
    c == '一' || c == '二' || c == '三' || c == '十' || c == '千'
}

/// Whether no character of `s` is one that daiji replaces.
pub open spec fn no_alterable(s: Seq<char>) -> bool {
    forall|i: int| 0 <= i < s.len() ==> !alterable_char(#[trigger] s[i])
}

proof fn lemma_no_alterable_concat(a: Seq<char>, b: Seq<char>)
    requires
        no_alterable(a),
        no_alterable(b),
    ensures
        no_alterable(a + b),
{
    assert forall|i: int| 0 <= i < (a + b).len() implies !alterable_char(#[trigger] (a + b)[i]) by {
        if i < a.len() {
            assert((a + b)[i] == a[i]);
        } else {
            assert((a + b)[i] == b[i - a.len()]);
        }
    }
}

proof fn lemma_daiji_group(g: int)
    requires
        0 <= g <= 9999,
    ensures
        no_alterable(group_text(g, true)),
{
    let p1 = place(g / 1000, thousand_name(true), true);
    let p2 = place((g % 1000) / 100, '百', true);
    let p3 = place((g % 100) / 10, ten_name(true), true);
    let p4: Seq<char> = if g % 10 > 0 { seq![style_digit(g % 10, true)] } else { Seq::empty() };
    assert(no_alterable(p1));
    assert(no_alterable(p2));
    assert(no_alterable(p3));
    assert(no_alterable(p4));
    lemma_no_alterable_concat(p1, p2);
    lemma_no_alterable_concat(p1 + p2, p3);
    lemma_no_alterable_concat(p1 + p2 + p3, p4);
    assert(group_text(g, true) == p1 + p2 + p3 + p4);
}

proof fn lemma_daiji_large(g: int, unit: char)
    requires
        0 <= g <= 9999,
        !alterable_char(unit),
    ensures
        no_alterable(large_part(g, unit, true)),
{
    if g > 0 {
        lemma_daiji_group(g);
        lemma_no_alterable_concat(group_text(g, true), seq![unit]);
    }
}

/// The daiji numeral of `n` uses none of the easily altered characters
/// 一 二 三 十 千 (it writes 壱 弐 参 拾 阡 instead).
pub proof fn lemma_daiji_avoids_alterable(n: int)
    requires
        0 <= n <= u64::MAX,
    ensures
        no_alterable(kanji_number_spec(n, true)),
{
    if n > 0 {
        lemma_four_digit_groups(n);
        let a = n / 10_000_000_000_000_000;
        let b = (n % 10_000_000_000_000_000) / 1_000_000_000_000;
        let c = (n % 1_000_000_000_000) / 100_000_000;
        let d = (n % 100_000_000) / 10_000;
        let e = n % 10_000;
        let pa = large_part(a, '京', true);
        let pb = large_part(b, '兆', true);
        let pc = large_part(c, '億', true);
        let pd = large_part(d, '万', true);
        let pe: Seq<char> = if e > 0 { group_text(e, true) } else { Seq::empty() };
        lemma_daiji_large(a, '京');
        lemma_daiji_large(b, '兆');
        lemma_daiji_large(c, '億');
        lemma_daiji_large(d, '万');
        if e > 0 {
            lemma_daiji_group(e);
        }
        assert(no_alterable(pe));
        lemma_no_alterable_concat(pa, pb);
        lemma_no_alterable_concat(pa + pb, pc);
        lemma_no_alterable_concat(pa + pb + pc, pd);
        lemma_no_alterable_concat(pa + pb + pc + pd, pe);
        assert(kanji_number_spec(n, true) == pa + pb + pc + pd + pe);
    }
}

/// Roman numeral of `d` (0–9) in the place whose one, five and ten letters are given.
pub open spec fn roman_digit(d: int, one: char, five: char, ten: char) -> Seq<char> {
    if d == 0 {
        Seq::empty()
    } else if d == 1 {
        seq![one]
    } else if d == 2 {
        seq![one, one]
    } else if d == 3 {
        seq![one, one, one]
    } else if d == 4 {
        seq![one, five]
    } else if d == 5 {
        seq![five]
    } else if d == 6 {
        seq![five, one]
    } else if d == 7 {
        seq![five, one, one]
    } else if d == 8 {
        seq![five, one, one, one]
    } else {
        seq![one, ten]
    }
}

/// Thousands as repeated `m`.
pub open spec fn repeat_char(c: char, k: nat) -> Seq<char>
    decreases k,
{
    if k == 0 {
        Seq::empty()
    } else {
        repeat_char(c, (k - 1) as nat).push(c)
    }
}

/// The ones place: with `glyphs`, 4 and 9 are the single characters
/// `l[7]` and `l[8]` (as the Unicode number forms have them).
pub open spec fn roman_ones(d: int, l: Seq<char>, glyphs: bool) -> Seq<char> {
    if glyphs && d == 4 {
        seq![l[7]]
    } else if glyphs && d == 9 {
        seq![l[8]]
    } else {
        roman_digit(d, l[0], l[1], l[2])
    }
}

/// Roman numeral (1–3999) written with the letters `[I, V, X, L, C, D, M]`
/// (then `IV`, `IX` as single characters when `glyphs`).
pub open spec fn roman_spec(n: int, l: Seq<char>, glyphs: bool) -> Seq<char> {
    repeat_char(l[6], (n / 1000) as nat) + roman_digit((n % 1000) / 100, l[4], l[5], l[6])
        + roman_digit((n % 100) / 10, l[2], l[3], l[4]) + roman_ones(n % 10, l, glyphs)
}

pub open spec fn roman_ascii_upper() -> Seq<char> {
    seq!['I', 'V', 'X', 'L', 'C', 'D', 'M', 'I', 'I']
}

pub open spec fn roman_ascii_lower() -> Seq<char> {
    seq!['i', 'v', 'x', 'l', 'c', 'd', 'm', 'i', 'i']
}

pub open spec fn roman_unicode_upper() -> Seq<char> {
    seq!['Ⅰ', 'Ⅴ', 'Ⅹ', 'Ⅼ', 'Ⅽ', 'Ⅾ', 'Ⅿ', 'Ⅳ', 'Ⅸ']
}

pub open spec fn roman_unicode_lower() -> Seq<char> {
    seq!['ⅰ', 'ⅴ', 'ⅹ', 'ⅼ', 'ⅽ', 'ⅾ', 'ⅿ', 'ⅳ', 'ⅸ']
}

/// Circled numeral code point for 1–50.
pub open spec fn circled_code(n: int) -> int {
    if n <= 20 {
        0x2460 + n - 1
    } else if n <= 35 {
        0x3251 + n - 21
    } else {
        0x32B1 + n - 36
    }
}

/// The conversion of `digits` with `ty`, `None` when not representable.
pub open spec fn spec_convert(digits: Seq<char>, ty: NumType) -> Option<Seq<char>> {
    match ty {
        NumType::Raw => Some(digits),
        NumType::Zenkaku => Some(digits.map_values(|c: char| zenkaku_char(c))),
        NumType::KanjiPos => Some(digits.map_values(|c: char| positional_char(c))),
        NumType::KanjiSeq => match spec_parse_u64(digits) {
            Some(n) => Some(kanji_number_spec(n as int, false)),
            None => None,
        },
        NumType::Daiji => match spec_parse_u64(digits) {
            Some(n) => Some(kanji_number_spec(n as int, true)),
            None => None,
        },
        NumType::Shogi => if digits.len() == 0 {
            None
        } else {
            Some(seq![zenkaku_char(digits[0])] + digits.drop_first().map_values(|c: char| shogi_rest_char(c)))
        },
        NumType::RomanUpperUnicode => roman_of(digits, roman_unicode_upper(), true),
        NumType::RomanLowerUnicode => roman_of(digits, roman_unicode_lower(), true),
        NumType::RomanUpperAscii => roman_of(digits, roman_ascii_upper(), false),
        NumType::RomanLowerAscii => roman_of(digits, roman_ascii_lower(), false),
        NumType::Circled => match spec_parse_u64(digits) {
            Some(n) => if 1 <= n <= 50 {
                Some(seq![circled_code(n as int) as char])
            } else {
                None
            },
            None => None,
        },
    }
}

pub open spec fn roman_of(digits: Seq<char>, letters: Seq<char>, glyphs: bool) -> Option<Seq<char>> {
    match spec_parse_u64(digits) {
        Some(n) => if 1 <= n <= 3999 {
            Some(roman_spec(n as int, letters, glyphs))
        } else {
            None
        },
        None => None,
    }
}

/// When a conversion is not representable: a type that reads the digits
/// as a number gives nothing when they do not form one; Roman numerals
/// exist for 1 to 3999 only, circled numerals for 1 to 50 only, and the
/// shogi form needs at least one digit.
pub open spec fn convert_fails(digits: Seq<char>, ty: NumType) -> bool {
    match ty {
        NumType::Raw | NumType::Zenkaku | NumType::KanjiPos => false,
        NumType::Shogi => digits.len() == 0,
        NumType::KanjiSeq | NumType::Daiji => spec_parse_u64(digits) is None,
        NumType::Circled => !(spec_parse_u64(digits) matches Some(n) && 1 <= n <= 50),
        _ => !(spec_parse_u64(digits) matches Some(n) && 1 <= n <= 3999),
    }
}

/// A conversion gives nothing exactly when it is not representable.
pub proof fn lemma_convert_none_iff(digits: Seq<char>, ty: NumType)
    ensures
        spec_convert(digits, ty) is None <==> convert_fails(digits, ty),
{
}

// ── Executable ───────────────────────────────────────────────────────────────

proof fn lemma_digits_value_nonneg(s: Seq<char>)
    requires
        all_digits(s),
    ensures
        digits_value(s) >= 0,
    decreases s.len(),
{
    if s.len() > 0 {
        assert(all_digits(s.drop_last()));
        lemma_digits_value_nonneg(s.drop_last());
    }
}

/// A longer digit string is worth at least as much as its prefix.
proof fn lemma_digits_value_mono(s: Seq<char>, i: int)
    requires
        all_digits(s),
        0 <= i <= s.len(),
    ensures
        digits_value(s.take(i)) <= digits_value(s),
    decreases s.len() - i,
{
    if i < s.len() {
        lemma_digits_value_mono(s, i + 1);
        assert(s.take(i + 1).drop_last() =~= s.take(i));
        assert(all_digits(s.take(i))) by {
            assert forall|k: int| 0 <= k < s.take(i).len() implies spec_is_ascii_digit(#[trigger] s.take(i)[k]) by {
                assert(s.take(i)[k] == s[k]);
            }
        }
        lemma_digits_value_nonneg(s.take(i));
    } else {
        assert(s.take(i) =~= s);
    }
}

/// `str::parse::<u64>`.
#[verifier::loop_isolation(false)]
pub fn parse_u64(digits: &str) -> (r: Option<u64>)
    ensures
        r == spec_parse_u64(digits@),
{
    let cs = chars_of(digits);
    let start: usize = if cs.len() > 0 && cs[0] == '+' { 1 } else { 0 };
    let ghost t = if digits@.len() > 0 && digits@[0] == '+' { digits@.drop_first() } else { digits@ };
    assert(t =~= cs@.skip(start as int));
    if cs.len() == start {
        return None;
    }
    let mut value: u64 = 0;
    let mut i: usize = start;
    while i < cs.len()
        invariant
            start <= i <= cs.len(),
            cs@ == digits@,
            t == cs@.skip(start as int),
            all_digits(t.take(i - start)),
            value as int == digits_value(t.take(i - start)),
        decreases cs.len() - i,
    {
        let c = cs[i];
        assert(t.take(i + 1 - start).drop_last() =~= t.take(i - start));
        assert(t.take(i + 1 - start).last() == c);
        if !('0' <= c && c <= '9') {
            assert(!spec_is_ascii_digit(t[i - start]));
            return None;
        }
        let d = (c as u32 - '0' as u32) as u64;
        let next = match value.checked_mul(10) {
            Some(v) => v.checked_add(d),
            None => None,
        };
        match next {
            Some(v) => {
                value = v;
            },
            None => {
                proof {
                    let k = i + 1 - start;
                    assert(all_digits(t.take(k as int)));
                    assert(digits_value(t.take(k as int)) > u64::MAX);
                    if all_digits(t) {
                        lemma_digits_value_mono(t, k as int);
                    }
                }
                return None;
            },
        }
        i += 1;
    }
    assert(t.take(cs.len() - start) =~= t);
    Some(value)
}

fn zenkaku_digit(c: char) -> (r: char)
    ensures
        r == zenkaku_char(c),
{
    match c {
        '0' => '０',
        '1' => '１',
        '2' => '２',
        '3' => '３',
        '4' => '４',
        '5' => '５',
        '6' => '６',
        '7' => '７',
        '8' => '８',
        '9' => '９',
        other => other,
    }
}

fn kanji_digit_exec(d: u64) -> (r: char)
    requires
        d <= 9,
    ensures
        r == kanji_digit(d as int),
{
    match d {
        0 => '〇',
        1 => '一',
        2 => '二',
        3 => '三',
        4 => '四',
        5 => '五',
        6 => '六',
        7 => '七',
        8 => '八',
        _ => '九',
    }
}

fn daiji_digit_exec(d: u64) -> (r: char)
    requires
        d <= 9,
    ensures
        r == daiji_digit(d as int),
{
    match d {
        0 => '零',
        1 => '壱',
        2 => '弐',
        3 => '参',
        4 => '四',
        5 => '伍',
        6 => '六',
        7 => '七',
        8 => '八',
        _ => '九',
    }
}

fn style_digit_exec(d: u64, daiji: bool) -> (r: char)
    requires
        d <= 9,
    ensures
        r == style_digit(d as int, daiji),
{
    if daiji {
        daiji_digit_exec(d)
    } else {
        kanji_digit_exec(d)
    }
}

fn positional_char_exec(c: char) -> (r: char)
    ensures
        r == positional_char(c),
{
    if '0' <= c && c <= '9' {
        kanji_digit_exec((c as u32 - '0' as u32) as u64)
    } else {
        c
    }
}

/// #1 — each digit to its full-width counterpart.
fn to_zenkaku(digits: &str) -> (r: String)
    ensures
        r@ == digits@.map_values(|c: char| zenkaku_char(c)),
{
    let cs = chars_of(digits);
    let mut r = String::new();
    let mut i: usize = 0;
    while i < cs.len()
        invariant
            i <= cs.len(),
            r@ == cs@.take(i as int).map_values(|c: char| zenkaku_char(c)),
        decreases cs.len() - i,
    {
        push_char(&mut r, zenkaku_digit(cs[i]));
        assert(cs@.take(i + 1).map_values(|c: char| zenkaku_char(c)) =~= cs@.take(i as int).map_values(
            |c: char| zenkaku_char(c),
        ).push(zenkaku_char(cs@[i as int])));
        i += 1;
    }
    assert(cs@.take(cs.len() as int) =~= cs@);
    r
}

/// #2 — positional kanji: each digit mapped to its kanji character.
fn to_kanji_positional(digits: &str) -> (r: String)
    ensures
        r@ == digits@.map_values(|c: char| positional_char(c)),
{
    let cs = chars_of(digits);
    let mut r = String::new();
    let mut i: usize = 0;
    while i < cs.len()
        invariant
            i <= cs.len(),
            r@ == cs@.take(i as int).map_values(|c: char| positional_char(c)),
        decreases cs.len() - i,
    {
        push_char(&mut r, positional_char_exec(cs[i]));
        assert(cs@.take(i + 1).map_values(|c: char| positional_char(c)) =~= cs@.take(i as int).map_values(
            |c: char| positional_char(c),
        ).push(positional_char(cs@[i as int])));
        i += 1;
    }
    assert(cs@.take(cs.len() as int) =~= cs@);
    r
}

/// Appends one place of a group.
fn push_place(r: &mut String, d: u64, name: char, daiji: bool)
    requires
        d <= 9,
    ensures
        final(r)@ == old(r)@ + place(d as int, name, daiji),
{
    if d == 0 {
        assert(old(r)@ + place(d as int, name, daiji) =~= old(r)@);
    } else if d == 1 && !daiji {
        push_char(r, name);
        assert(final(r)@ =~= old(r)@ + place(d as int, name, daiji));
    } else {
        push_char(r, style_digit_exec(d, daiji));
        push_char(r, name);
        assert(final(r)@ =~= old(r)@ + place(d as int, name, daiji));
    }
}

/// Appends a group 1–9999 with its place names.
fn push_group(r: &mut String, n: u64, daiji: bool)
    requires
        1 <= n <= 9999,
    ensures
        final(r)@ == old(r)@ + group_text(n as int, daiji),
{
    let thousand = if daiji { '阡' } else { '千' };
    let ten = if daiji { '拾' } else { '十' };
    push_place(r, n / 1000, thousand, daiji);
    push_place(r, (n % 1000) / 100, '百', daiji);
    push_place(r, (n % 100) / 10, ten, daiji);
    let ghost mid = r@;
    if n % 10 > 0 {
        push_char(r, style_digit_exec(n % 10, daiji));
    }
    assert(final(r)@ =~= old(r)@ + group_text(n as int, daiji));
}

/// Appends a group and its large unit when the group is not 0.
fn push_large(r: &mut String, g: u64, unit: char, daiji: bool)
    requires
        g <= 9999,
    ensures
        final(r)@ == old(r)@ + large_part(g as int, unit, daiji),
{
    if g > 0 {
        push_group(r, g, daiji);
        push_char(r, unit);
        assert(final(r)@ =~= old(r)@ + large_part(g as int, unit, daiji));
    } else {
        assert(old(r)@ + large_part(g as int, unit, daiji) =~= old(r)@);
    }
}

/// Builds a kanji/daiji numeral string.
///
/// Numbers are decomposed into groups of up to 9999 separated by 万, 億, 兆, 京.
/// In the standard style a coefficient of 1 before 千, 百 and 十 is omitted
/// (千 not 一千), but never before a large unit (一万).
fn kanji_number(n: u64, daiji: bool) -> (r: String)
    ensures
        r@ == kanji_number_spec(n as int, daiji),
{
    let mut r = String::new();
    if n == 0 {
        push_char(&mut r, style_digit_exec(0, daiji));
        assert(r@ =~= kanji_number_spec(n as int, daiji));
        return r;
    }
    assert(n / 10_000_000_000_000_000 <= 9999) by (nonlinear_arith);
    push_large(&mut r, n / 10_000_000_000_000_000, '京', daiji);
    let r1 = n % 10_000_000_000_000_000;
    push_large(&mut r, r1 / 1_000_000_000_000, '兆', daiji);
    let r2 = n % 1_000_000_000_000;
    push_large(&mut r, r2 / 100_000_000, '億', daiji);
    let r3 = n % 100_000_000;
    push_large(&mut r, r3 / 10_000, '万', daiji);
    let r4 = n % 10_000;
    if r4 > 0 {
        push_group(&mut r, r4, daiji);
    }
    assert(r@ =~= kanji_number_spec(n as int, daiji));
    r
}

/// #9 — shogi notation: first digit full-width, rest positional kanji.
fn to_shogi(digits: &str) -> (r: Option<String>)
    ensures
        r.is_some() == (digits@.len() > 0),
        r matches Some(s) ==> s@ == seq![zenkaku_char(digits@[0])] + digits@.drop_first().map_values(
            |c: char| shogi_rest_char(c),
        ),
{
    let cs = chars_of(digits);
    if cs.len() == 0 {
        return None;
    }
    let mut r = String::new();
    push_char(&mut r, zenkaku_digit(cs[0]));
    let ghost rest = cs@.drop_first();
    let mut i: usize = 1;
    while i < cs.len()
        invariant
            1 <= i <= cs.len(),
            rest == cs@.drop_first(),
            r@ == seq![zenkaku_char(cs@[0])] + rest.take(i - 1).map_values(|c: char| shogi_rest_char(c)),
        decreases cs.len() - i,
    {
        let c = cs[i];
        let k = if '1' <= c && c <= '9' {
            kanji_digit_exec((c as u32 - '0' as u32) as u64)
        } else {
            c
        };
        push_char(&mut r, k);
        assert(rest.take(i as int).map_values(|c: char| shogi_rest_char(c)) =~= rest.take(i - 1).map_values(
            |c: char| shogi_rest_char(c),
        ).push(shogi_rest_char(rest[i - 1])));
        i += 1;
    }
    assert(rest.take(cs.len() - 1) =~= rest);
    Some(r)
}

/// Appends `c` `k` times.
fn push_repeat(r: &mut String, c: char, k: u64)
    ensures
        final(r)@ == old(r)@ + repeat_char(c, k as nat),
{
    let mut i: u64 = 0;
    while i < k
        invariant
            i <= k,
            r@ == old(r)@ + repeat_char(c, i as nat),
        decreases k - i,
    {
        push_char(r, c);
        assert(r@ =~= old(r)@ + repeat_char(c, (i + 1) as nat));
        i += 1;
    }
}

/// Appends the roman numeral of digit `d` in one place.
fn push_roman_digit(r: &mut String, d: u64, one: char, five: char, ten: char)
    requires
        d <= 9,
    ensures
        final(r)@ == old(r)@ + roman_digit(d as int, one, five, ten),
{
    if d == 9 {
        push_char(r, one);
        push_char(r, ten);
    } else if d == 4 {
        push_char(r, one);
        push_char(r, five);
    } else {
        let mut k = d;
        if d >= 5 {
            push_char(r, five);
            k = d - 5;
        }
        push_repeat(r, one, k);
        reveal_with_fuel(repeat_char, 4);
        assert(repeat_char(one, 1) =~= seq![one]);
        assert(repeat_char(one, 2) =~= seq![one, one]);
        assert(repeat_char(one, 3) =~= seq![one, one, one]);
    }
    assert(final(r)@ =~= old(r)@ + roman_digit(d as int, one, five, ten));
}

/// Roman numeral for 1–3999 with the given letters `[I, V, X, L, C, D, M, Ⅳ, Ⅸ]`.
fn roman(n: u64, l: [char; 9], glyphs: bool) -> (r: String)
    requires
        1 <= n <= 3999,
    ensures
        r@ == roman_spec(n as int, l@, glyphs),
{
    let mut r = String::new();
    push_repeat(&mut r, l[6], n / 1000);
    push_roman_digit(&mut r, (n % 1000) / 100, l[4], l[5], l[6]);
    push_roman_digit(&mut r, (n % 100) / 10, l[2], l[3], l[4]);
    let d = n % 10;
    if glyphs && d == 4 {
        push_char(&mut r, l[7]);
    } else if glyphs && d == 9 {
        push_char(&mut r, l[8]);
    } else {
        push_roman_digit(&mut r, d, l[0], l[1], l[2]);
    }
    assert(r@ =~= roman_spec(n as int, l@, glyphs));
    r
}

fn roman_letters(ty: NumType) -> (r: [char; 9])
    requires
        ty is RomanUpperUnicode || ty is RomanLowerUnicode || ty is RomanUpperAscii || ty is RomanLowerAscii,
    ensures
        r@ == (match ty {
            NumType::RomanUpperUnicode => roman_unicode_upper(),
            NumType::RomanLowerUnicode => roman_unicode_lower(),
            NumType::RomanUpperAscii => roman_ascii_upper(),
            _ => roman_ascii_lower(),
        }),
{
    let r = match ty {
        NumType::RomanUpperUnicode => ['Ⅰ', 'Ⅴ', 'Ⅹ', 'Ⅼ', 'Ⅽ', 'Ⅾ', 'Ⅿ', 'Ⅳ', 'Ⅸ'],
        NumType::RomanLowerUnicode => ['ⅰ', 'ⅴ', 'ⅹ', 'ⅼ', 'ⅽ', 'ⅾ', 'ⅿ', 'ⅳ', 'ⅸ'],
        NumType::RomanUpperAscii => ['I', 'V', 'X', 'L', 'C', 'D', 'M', 'I', 'I'],
        _ => ['i', 'v', 'x', 'l', 'c', 'd', 'm', 'i', 'i'],
    };
    assert(r@ =~= (match ty {
        NumType::RomanUpperUnicode => roman_unicode_upper(),
        NumType::RomanLowerUnicode => roman_unicode_lower(),
        NumType::RomanUpperAscii => roman_ascii_upper(),
        _ => roman_ascii_lower(),
    }));
    r
}

/// Returns the circled numeral for 1–50.  Returns `None` outside that range.
fn to_circled(n: u64) -> (r: Option<String>)
    ensures
        1 <= n <= 50 ==> (r matches Some(s) && s@ == seq![circled_code(n as int) as char]),
        !(1 <= n <= 50) ==> r is None,
{
    if n == 0 || n > 50 {
        return None;
    }
    let cp: u32 = if n <= 20 {
        0x2460 + n as u32 - 1
    } else if n <= 35 {
        0x3251 + n as u32 - 21
    } else {
        0x32B1 + n as u32 - 36
    };
    let c = char_from_scalar(cp);
    let mut s = String::new();
    push_char(&mut s, c);
    assert(s@ =~= seq![circled_code(n as int) as char]);
    Some(s)
}

/// Converts an ASCII decimal digit string using the given `NumType`.
/// Returns `None` when the conversion is not representable for the given type
/// (e.g. circled numerals outside 1–50, Roman numerals for 0 or values > 3999).
pub fn convert(digits: &str, ty: NumType) -> (r: Option<String>)
    ensures
        match r {
            Some(s) => spec_convert(digits@, ty) == Some(s@),
            None => spec_convert(digits@, ty) is None,
        },
{
    match ty {
        NumType::Raw => Some(digits.to_owned()),
        NumType::Zenkaku => Some(to_zenkaku(digits)),
        NumType::KanjiPos => Some(to_kanji_positional(digits)),
        NumType::KanjiSeq => match parse_u64(digits) {
            Some(n) => Some(kanji_number(n, false)),
            None => None,
        },
        NumType::Daiji => match parse_u64(digits) {
            Some(n) => Some(kanji_number(n, true)),
            None => None,
        },
        NumType::Shogi => to_shogi(digits),
        NumType::Circled => match parse_u64(digits) {
            Some(n) => to_circled(n),
            None => None,
        },
        _ => match parse_u64(digits) {
            Some(n) => if 1 <= n && n <= 3999 {
                let glyphs = match ty {
                    NumType::RomanUpperUnicode | NumType::RomanLowerUnicode => true,
                    _ => false,
                };
                Some(roman(n, roman_letters(ty), glyphs))
            } else {
                None
            },
            None => None,
        },
    }
}

} // verus!
