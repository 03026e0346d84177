//! Editing the text of a registration frame at its cursor.

use vstd::prelude::*;

use crate::engine::{frame_wf, FrameView, RegisterFrame};
use crate::text::{byte_len, chars_of, lemma_byte_len_concat, str_byte_len, string_from_chars};

verus! {

/// Bytes of one character in UTF-8.
pub open spec fn char_bytes(c: char) -> nat {
    byte_len(seq![c])
}

pub proof fn lemma_char_bytes(c: char)
    ensures
        1 <= char_bytes(c) <= 4,
        (c as u32) <= 0x7F ==> char_bytes(c) == 1,
        0x80 <= (c as u32) <= 0x7FF ==> char_bytes(c) == 2,
        0x800 <= (c as u32) <= 0xFFFF ==> char_bytes(c) == 3,
        0x10000 <= (c as u32) ==> char_bytes(c) == 4,
{
    assert(seq![c].drop_first() =~= Seq::<char>::empty());
    assert(vstd::utf8::encode_utf8(Seq::<char>::empty()) =~= Seq::<u8>::empty());
    assert(vstd::utf8::encode_utf8(seq![c]) =~= vstd::utf8::encode_scalar(c as u32));
}

/// Byte length grows by the last character's bytes.
pub proof fn lemma_byte_len_push(s: Seq<char>, c: char)
    ensures
        byte_len(s.push(c)) == byte_len(s) + char_bytes(c),
{
    assert(s.push(c) =~= s + seq![c]);
    lemma_byte_len_concat(s, seq![c]);
}

/// Byte length of prefixes strictly grows.
pub proof fn lemma_prefix_bytes_mono(s: Seq<char>, a: int, b: int)
    requires
        0 <= a <= b <= s.len(),
    ensures
        byte_len(s.take(a)) + (b - a) <= byte_len(s.take(b)),
    decreases b - a,
{
    if a < b {
        lemma_prefix_bytes_mono(s, a, b - 1);
        assert(s.take(b) =~= s.take(b - 1).push(s[b - 1]));
        lemma_byte_len_push(s.take(b - 1), s[b - 1]);
        lemma_char_bytes(s[b - 1]);
    }
}

/// The character position of a frame's cursor.
pub open spec fn frame_pos(f: FrameView) -> int {
    choose|k: int| 0 <= k <= f.committed.len() && byte_len(#[trigger] f.committed.take(k)) == f.cursor
}

/// The cursor position of a well-formed frame.
pub proof fn lemma_frame_pos_spec(f: FrameView)
    requires
        frame_wf(f),
    ensures
        0 <= frame_pos(f) <= f.committed.len(),
        byte_len(f.committed.take(frame_pos(f))) == f.cursor,
{
}

pub proof fn lemma_frame_pos(f: FrameView, k: int)
    requires
        0 <= k <= f.committed.len(),
        byte_len(f.committed.take(k)) == f.cursor,
    ensures
        frame_pos(f) == k,
{
    let j = frame_pos(f);
    assert(0 <= j <= f.committed.len() && byte_len(f.committed.take(j)) == f.cursor);
    if j < k {
        lemma_prefix_bytes_mono(f.committed, j, k);
    } else if k < j {
        lemma_prefix_bytes_mono(f.committed, k, j);
    }
}

/// `t` inserted at the cursor, the cursor moving past it.
pub open spec fn frame_insert(f: FrameView, t: Seq<char>) -> FrameView {
    let k = frame_pos(f);
    FrameView {
        committed: f.committed.take(k) + t + f.committed.skip(k),
        cursor: f.cursor + byte_len(t),
        ..f
    }
}

/// The character before the cursor deleted.
pub open spec fn frame_backspace(f: FrameView) -> FrameView {
    let k = frame_pos(f);
    if k > 0 {
        FrameView {
            committed: f.committed.take(k - 1) + f.committed.skip(k),
            cursor: byte_len(f.committed.take(k - 1)),
            ..f
        }
    } else {
        f
    }
}

/// The character after the cursor deleted.
pub open spec fn frame_delete(f: FrameView) -> FrameView {
    let k = frame_pos(f);
    if k < f.committed.len() {
        FrameView { committed: f.committed.take(k) + f.committed.skip(k + 1), ..f }
    } else {
        f
    }
}

/// The cursor one character to the left.
pub open spec fn frame_left(f: FrameView) -> FrameView {
    let k = frame_pos(f);
    if k > 0 {
        FrameView { cursor: byte_len(f.committed.take(k - 1)), ..f }
    } else {
        f
    }
}

/// The cursor one character to the right.
pub open spec fn frame_right(f: FrameView) -> FrameView {
    let k = frame_pos(f);
    if k < f.committed.len() {
        FrameView { cursor: byte_len(f.committed.take(k + 1)), ..f }
    } else {
        f
    }
}

/// Bytes of one character.
fn char_len(c: char) -> (r: usize)
    ensures
        r == char_bytes(c),
{
    proof {
        lemma_char_bytes(c);
    }
    if (c as u32) <= 0x7F {
        1
    } else if (c as u32) <= 0x7FF {
        2
    } else if (c as u32) <= 0xFFFF {
        3
    } else {
        4
    }
}

/// The character position of the cursor, with the text's characters.
pub(crate) fn cursor_pos(f: &RegisterFrame) -> (r: (Vec<char>, usize))
    requires
        frame_wf(f@),
    ensures
        r.0@ == f.committed@,
        r.1 == frame_pos(f@),
        0 <= r.1 <= f.committed@.len(),
        byte_len(f.committed@.take(r.1 as int)) == f.cursor,
{
    let cs = chars_of(f.committed.as_str());
    let ghost k0 = frame_pos(f@);
    let mut i: usize = 0;
    let mut acc: usize = 0;
    assert(cs@.take(0) =~= Seq::<char>::empty());
    while acc < f.cursor && i < cs.len()
        invariant
            cs@ == f.committed@,
            0 <= k0 <= cs@.len(),
            byte_len(cs@.take(k0)) == f.cursor,
            i <= k0,
            acc == byte_len(cs@.take(i as int)),
        decreases k0 - i,
    {
        proof {
            if i == k0 {
                assert(acc == f.cursor);
            }
            assert(cs@.take(i + 1) =~= cs@.take(i as int).push(cs@[i as int]));
            lemma_byte_len_push(cs@.take(i as int), cs@[i as int]);
            lemma_prefix_bytes_mono(cs@, i + 1, k0);
        }
        acc = acc + char_len(cs[i]);
        i += 1;
    }
    proof {
        if i < k0 {
            lemma_prefix_bytes_mono(cs@, i as int, k0);
            lemma_frame_pos(f@, k0);
        }
        lemma_frame_pos(f@, k0);
        if acc == f.cursor {
            lemma_frame_pos(f@, i as int);
        }
    }
    (cs, i)
}

/// Copies `v[from..to]` after `out`.
fn extend_range(out: &mut Vec<char>, v: &Vec<char>, from: usize, to: usize)
    requires
        from <= to <= v.len(),
    ensures
        final(out)@ == old(out)@ + v@.subrange(from as int, to as int),
{
    let mut i = from;
    while i < to
        invariant
            from <= i <= to <= v.len(),
            out@ == old(out)@ + v@.subrange(from as int, i as int),
        decreases to - i,
    {
        out.push(v[i]);
        assert(out@ =~= old(out)@ + v@.subrange(from as int, i + 1));
        i += 1;
    }
}

pub proof fn lemma_frame_wf_at(f: FrameView, k: int)
    requires
        0 <= k <= f.committed.len(),
        byte_len(f.committed.take(k)) == f.cursor,
    ensures
        frame_wf(f),
{
}

/// Inserts `t` at the cursor.
pub fn frame_insert_exec(f: &mut RegisterFrame, t: &str)
    requires
        frame_wf(old(f)@),
    ensures
        final(f)@ == frame_insert(old(f)@, t@),
        frame_wf(final(f)@),
{
    let ghost f0 = f@;
    let (cs, k) = cursor_pos(f);
    let tv = chars_of(t);
    let mut out: Vec<char> = Vec::new();
    extend_range(&mut out, &cs, 0, k);
    extend_range(&mut out, &tv, 0, tv.len());
    let head = string_from_chars(out.as_slice());
    let new_cursor = str_byte_len(head.as_str());
    extend_range(&mut out, &cs, k, cs.len());
    f.committed = string_from_chars(out.as_slice());
    f.cursor = new_cursor;
    proof {
        let a = cs@.take(k as int);
        assert(cs@.subrange(0, k as int) =~= a);
        assert(tv@.subrange(0, tv@.len() as int) =~= t@);
        assert(cs@.subrange(k as int, cs@.len() as int) =~= cs@.skip(k as int));
        assert(head@ =~= a + t@);
        lemma_byte_len_concat(a, t@);
        let c2 = f.committed@;
        assert(c2 =~= a + t@ + cs@.skip(k as int));
        assert(c2.take((a.len() + t@.len()) as int) =~= a + t@);
        lemma_frame_wf_at(f@, (a.len() + t@.len()) as int);
    }
}

/// Deletes the character before the cursor.
pub fn frame_backspace_exec(f: &mut RegisterFrame)
    requires
        frame_wf(old(f)@),
    ensures
        final(f)@ == frame_backspace(old(f)@),
        frame_wf(final(f)@),
{
    let (cs, k) = cursor_pos(f);
    if k == 0 {
        return;
    }
    let mut out: Vec<char> = Vec::new();
    extend_range(&mut out, &cs, 0, k - 1);
    let head = string_from_chars(out.as_slice());
    let new_cursor = str_byte_len(head.as_str());
    extend_range(&mut out, &cs, k, cs.len());
    f.committed = string_from_chars(out.as_slice());
    f.cursor = new_cursor;
    proof {
        let a = cs@.take(k - 1);
        assert(cs@.subrange(0, k - 1) =~= a);
        assert(cs@.subrange(k as int, cs@.len() as int) =~= cs@.skip(k as int));
        assert(head@ =~= a);
        let c2 = f.committed@;
        assert(c2 =~= a + cs@.skip(k as int));
        assert(c2.take(a.len() as int) =~= a);
        lemma_frame_wf_at(f@, a.len() as int);
    }
}

/// Deletes the character after the cursor.
pub fn frame_delete_exec(f: &mut RegisterFrame)
    requires
        frame_wf(old(f)@),
    ensures
        final(f)@ == frame_delete(old(f)@),
        frame_wf(final(f)@),
{
    let (cs, k) = cursor_pos(f);
    if k >= cs.len() {
        return;
    }
    let mut out: Vec<char> = Vec::new();
    extend_range(&mut out, &cs, 0, k);
    extend_range(&mut out, &cs, k + 1, cs.len());
    f.committed = string_from_chars(out.as_slice());
    proof {
        let a = cs@.take(k as int);
        assert(cs@.subrange(0, k as int) =~= a);
        assert(cs@.subrange(k + 1, cs@.len() as int) =~= cs@.skip(k + 1));
        let c2 = f.committed@;
        assert(c2 =~= a + cs@.skip(k + 1));
        assert(c2.take(k as int) =~= a);
        lemma_frame_wf_at(f@, k as int);
    }
}

/// Moves the cursor one character to the left.
pub fn frame_left_exec(f: &mut RegisterFrame)
    requires
        frame_wf(old(f)@),
    ensures
        final(f)@ == frame_left(old(f)@),
        frame_wf(final(f)@),
{
    let (cs, k) = cursor_pos(f);
    if k == 0 {
        return;
    }
    let mut out: Vec<char> = Vec::new();
    extend_range(&mut out, &cs, 0, k - 1);
    let head = string_from_chars(out.as_slice());
    f.cursor = str_byte_len(head.as_str());
    proof {
        assert(cs@.subrange(0, k - 1) =~= cs@.take(k - 1));
        assert(head@ =~= cs@.take(k - 1));
        lemma_frame_wf_at(f@, k - 1);
    }
}

/// Moves the cursor one character to the right.
pub fn frame_right_exec(f: &mut RegisterFrame)
    requires
        frame_wf(old(f)@),
    ensures
        final(f)@ == frame_right(old(f)@),
        frame_wf(final(f)@),
{
    let (cs, k) = cursor_pos(f);
    if k >= cs.len() {
        return;
    }
    let mut out: Vec<char> = Vec::new();
    extend_range(&mut out, &cs, 0, k + 1);
    let head = string_from_chars(out.as_slice());
    f.cursor = str_byte_len(head.as_str());
    proof {
        assert(cs@.subrange(0, k + 1) =~= cs@.take(k + 1));
        assert(head@ =~= cs@.take(k + 1));
        lemma_frame_wf_at(f@, k + 1);
    }
}

} // verus!
