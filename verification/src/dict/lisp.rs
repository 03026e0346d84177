//! Classification and serialization of Lisp-form dictionary candidates.
//!
//! SKK-JISYO files may contain candidates that start with `(`, indicating an
//! Emacs Lisp S-expression.  The only supported directive is
//! `skk-ignore-dic-word`; all other Lisp forms are classified as `Unknown` and
//! passed through opaquely.

use vstd::prelude::*;

use crate::dict::entry::{strs_view, LispForm, LispFormView};
use crate::text::{
    chars_of, is_ascii_whitespace, is_prefix, push_char, spec_is_ascii_whitespace,
    spec_is_whitespace, trim_chars, trim_end_seq, trim_seq, trim_start_chars, trim_start_seq,
};

verus! {

// ── Specification ────────────────────────────────────────────────────────────

/// The directive keyword.
pub open spec fn keyword() -> Seq<char> {
    seq!['s', 'k', 'k', '-', 'i', 'g', 'n', 'o', 'r', 'e', '-', 'd', 'i', 'c', '-', 'w', 'o', 'r', 'd']
}

/// State of the scanner over the quoted-word list.
pub enum WordScan {
    /// Between words; the words read so far.
    Between(Seq<Seq<char>>),
    /// Inside a quoted word.
    InWord(Seq<Seq<char>>, Seq<char>),
    /// Just after a backslash inside a quoted word.
    Escape(Seq<Seq<char>>, Seq<char>),
    /// Malformed input.
    Fail,
}

/// One character of the quoted-word list.
pub open spec fn scan_step(st: WordScan, c: char) -> WordScan {
    match st {
        WordScan::Between(ws) => if spec_is_ascii_whitespace(c) {
            WordScan::Between(ws)
        } else if c == '"' {
            WordScan::InWord(ws, Seq::empty())
        } else {
            WordScan::Fail
        },
        WordScan::InWord(ws, cur) => if c == '"' {
            WordScan::Between(ws.push(cur))
        } else if c == '\\' {
            WordScan::Escape(ws, cur)
        } else {
            WordScan::InWord(ws, cur.push(c))
        },
        WordScan::Escape(ws, cur) => if c == '"' || c == '\\' {
            WordScan::InWord(ws, cur.push(c))
        } else {
            WordScan::Fail
        },
        WordScan::Fail => WordScan::Fail,
    }
}

/// The scanner run over `s` from `st`.
pub open spec fn scan_from(st: WordScan, s: Seq<char>) -> WordScan
    decreases s.len(),
{
    if s.len() == 0 {
        st
    } else {
        scan_from(scan_step(st, s[0]), s.drop_first())
    }
}

/// The words of `(skk-ignore-dic-word "w1" "w2" ...)`, if `s` has that form.
pub open spec fn spec_parse_ignore(s: Seq<char>) -> Option<Seq<Seq<char>>> {
    let t = trim_seq(s);
    if t.len() >= 2 && t[0] == '(' && t.last() == ')' {
        let inner = trim_seq(t.subrange(1, t.len() - 1));
        if is_prefix(keyword(), inner) {
            let rest = inner.skip(keyword().len() as int);
            if rest.len() == 0 || spec_is_ascii_whitespace(rest[0]) {
                match scan_from(WordScan::Between(Seq::empty()), trim_start_seq(rest)) {
                    WordScan::Between(ws) => Some(ws),
                    _ => None,
                }
            } else {
                None
            }
        } else {
            None
        }
    } else {
        None
    }
}

/// Classification of a candidate word.
pub open spec fn spec_classify(word: Seq<char>) -> Option<LispFormView> {
    if word.len() == 0 || word[0] != '(' {
        None
    } else {
        match spec_parse_ignore(word) {
            Some(ws) => Some(LispFormView::IgnoreDicWord(ws)),
            None => Some(LispFormView::Unknown),
        }
    }
}

/// One character of a word, escaped for a quoted Lisp string.
pub open spec fn escape_char(c: char) -> Seq<char> {
    if c == '\\' {
        seq!['\\', '\\']
    } else if c == '"' {
        seq!['\\', '"']
    } else {
        seq![c]
    }
}

/// A word with `\` and `"` escaped.
pub open spec fn escape_seq(w: Seq<char>) -> Seq<char>
    decreases w.len(),
{
    if w.len() == 0 {
        Seq::empty()
    } else {
        escape_seq(w.drop_last()) + escape_char(w.last())
    }
}

/// A word as a quoted Lisp string.
pub open spec fn quoted(w: Seq<char>) -> Seq<char> {
    seq!['"'] + escape_seq(w) + seq!['"']
}

/// The quoted words separated by single spaces.
pub open spec fn join_quoted(ws: Seq<Seq<char>>) -> Seq<char>
    decreases ws.len(),
{
    if ws.len() == 0 {
        Seq::empty()
    } else if ws.len() == 1 {
        quoted(ws[0])
    } else {
        join_quoted(ws.drop_last()) + seq![' '] + quoted(ws.last())
    }
}

/// The S-expression of an ignore directive.
pub open spec fn spec_render(ws: Seq<Seq<char>>) -> Seq<char> {
    seq!['('] + keyword() + seq![' '] + join_quoted(ws) + seq![')']
}

// ── Lemmas ───────────────────────────────────────────────────────────────────

proof fn lemma_scan_concat(st: WordScan, a: Seq<char>, b: Seq<char>)
    ensures
        scan_from(st, a + b) == scan_from(scan_from(st, a), b),
    decreases a.len(),
{
    if a.len() == 0 {
        assert(a + b =~= b);
    } else {
        assert((a + b).drop_first() =~= a.drop_first() + b);
        lemma_scan_concat(scan_step(st, a[0]), a.drop_first(), b);
    }
}

proof fn lemma_scan_single(st: WordScan, c: char)
    ensures
        scan_from(st, seq![c]) == scan_step(st, c),
{
    assert(seq![c].drop_first() =~= Seq::<char>::empty());
    reveal_with_fuel(scan_from, 2);
}

proof fn lemma_scan_pair(st: WordScan, a: char, b: char)
    ensures
        scan_from(st, seq![a, b]) == scan_step(scan_step(st, a), b),
{
    assert(seq![a, b] =~= seq![a] + seq![b]);
    lemma_scan_concat(st, seq![a], seq![b]);
    lemma_scan_single(st, a);
    lemma_scan_single(scan_step(st, a), b);
}

proof fn lemma_scan_push(st: WordScan, a: Seq<char>, c: char)
    ensures
        scan_from(st, a.push(c)) == scan_step(scan_from(st, a), c),
{
    assert(a.push(c) =~= a + seq![c]);
    lemma_scan_concat(st, a, seq![c]);
    lemma_scan_single(scan_from(st, a), c);
}

proof fn lemma_scan_fail(s: Seq<char>)
    ensures
        scan_from(WordScan::Fail, s) == WordScan::Fail,
    decreases s.len(),
{
    if s.len() > 0 {
        lemma_scan_fail(s.drop_first());
    }
}

proof fn lemma_scan_escaped(ws: Seq<Seq<char>>, cur: Seq<char>, w: Seq<char>)
    ensures
        scan_from(WordScan::InWord(ws, cur), escape_seq(w)) == WordScan::InWord(ws, cur + w),
    decreases w.len(),
{
    if w.len() == 0 {
        assert(cur + w =~= cur);
    } else {
        let init = w.drop_last();
        let c = w.last();
        lemma_scan_escaped(ws, cur, init);
        lemma_scan_concat(WordScan::InWord(ws, cur), escape_seq(init), escape_char(c));
        assert(cur + init.push(c) =~= (cur + init).push(c));
        assert(init.push(c) =~= w);
        let st = WordScan::InWord(ws, cur + init);
        if c == '\\' {
            lemma_scan_pair(st, '\\', '\\');
        } else if c == '"' {
            lemma_scan_pair(st, '\\', '"');
        } else {
            lemma_scan_single(st, c);
        }
    }
}

proof fn lemma_scan_quoted(ws: Seq<Seq<char>>, w: Seq<char>)
    ensures
        scan_from(WordScan::Between(ws), quoted(w)) == WordScan::Between(ws.push(w)),
{
    lemma_scan_concat(WordScan::Between(ws), seq!['"'] + escape_seq(w), seq!['"']);
    lemma_scan_concat(WordScan::Between(ws), seq!['"'], escape_seq(w));
    lemma_scan_single(WordScan::Between(ws), '"');
    lemma_scan_escaped(ws, Seq::empty(), w);
    lemma_scan_single(WordScan::InWord(ws, w), '"');
    assert(Seq::<char>::empty() + w =~= w);
}

proof fn lemma_scan_join(ws: Seq<Seq<char>>)
    ensures
        scan_from(WordScan::Between(Seq::empty()), join_quoted(ws)) == WordScan::Between(ws),
    decreases ws.len(),
{
    if ws.len() == 0 {
        assert(ws =~= Seq::<Seq<char>>::empty());
    } else if ws.len() == 1 {
        lemma_scan_quoted(Seq::empty(), ws[0]);
        assert(Seq::<Seq<char>>::empty().push(ws[0]) =~= ws);
    } else {
        let init = ws.drop_last();
        lemma_scan_join(init);
        lemma_scan_concat(
            WordScan::Between(Seq::empty()),
            join_quoted(init) + seq![' '],
            quoted(ws.last()),
        );
        lemma_scan_concat(WordScan::Between(Seq::empty()), join_quoted(init), seq![' ']);
        lemma_scan_single(WordScan::Between(init), ' ');
        lemma_scan_quoted(init, ws.last());
        assert(init.push(ws.last()) =~= ws);
    }
}

proof fn lemma_join_shape(ws: Seq<Seq<char>>)
    ensures
        ws.len() > 0 ==> join_quoted(ws).len() >= 2 && join_quoted(ws)[0] == '"'
            && join_quoted(ws).last() == '"',
    decreases ws.len(),
{
    if ws.len() > 1 {
        lemma_join_shape(ws.drop_last());
    }
}

/// Reading back a rendered directive gives the words it was rendered from.
pub proof fn lemma_render_parse_roundtrip(ws: Seq<Seq<char>>)
    ensures
        spec_parse_ignore(spec_render(ws)) == Some(ws),
{
    let r = spec_render(ws);
    let j = join_quoted(ws);
    lemma_join_shape(ws);
    assert(r.len() >= 2 && r[0] == '(' && r.last() == ')');
    assert(!spec_is_whitespace(r[0]) && !spec_is_whitespace(r.last()));
    assert(trim_seq(r) == r);
    let inner = r.subrange(1, r.len() - 1);
    assert(inner =~= keyword() + seq![' '] + j);
    let kw = keyword();
    if ws.len() == 0 {
        assert(inner =~= kw.push(' '));
        assert(inner.drop_last() =~= kw);
        assert(trim_start_seq(inner) == inner);
        assert(trim_end_seq(kw) == kw);
        assert(trim_end_seq(inner) == trim_end_seq(inner.drop_last()));
        assert(trim_seq(inner) == kw);
        assert(kw.take(kw.len() as int) =~= kw);
        let rest = kw.skip(kw.len() as int);
        assert(rest =~= Seq::<char>::empty());
        lemma_scan_join(ws);
    } else {
        assert(!spec_is_whitespace(inner[0]));
        assert(inner.last() == j.last());
        assert(trim_seq(inner) == inner);
        assert(inner.take(kw.len() as int) =~= kw);
        let rest = inner.skip(kw.len() as int);
        assert(rest =~= seq![' '] + j);
        assert(rest.drop_first() =~= j);
        assert(trim_start_seq(j) == j);
        assert(trim_start_seq(rest) == trim_start_seq(rest.drop_first()));
        assert(trim_start_seq(rest) == j);
        lemma_scan_join(ws);
    }
}

// ── Executable ───────────────────────────────────────────────────────────────

/// Classifies a candidate word string.
///
/// Returns `Some(LispForm)` if the string begins with `(` (a Lisp-form
/// candidate), or `None` if it is a plain literal string.
pub fn classify(word: &str) -> (r: Option<LispForm>)
    ensures
        match r {
            Some(f) => spec_classify(word@) == Some(f@),
            None => spec_classify(word@) is None,
        },
{
    let cs = chars_of(word);
    if cs.len() == 0 || cs[0] != '(' {
        return None;
    }
    match parse_ignore_dic_word(word) {
        Some(words) => Some(LispForm::IgnoreDicWord(words)),
        None => Some(LispForm::Unknown),
    }
}

/// Attempts to parse `(skk-ignore-dic-word "w1" "w2" ...)` and returns the
/// list of words to ignore, or `None` if the string does not match.
///
/// Handles `\"` and `\\` escape sequences inside quoted strings.
#[verifier::loop_isolation(false)]
pub fn parse_ignore_dic_word(s: &str) -> (r: Option<Vec<String>>)
    ensures
        match r {
            Some(ws) => spec_parse_ignore(s@) == Some(strs_view(ws@)),
            None => spec_parse_ignore(s@) is None,
        },
{
    let cs = chars_of(s);
    let t = trim_chars(&cs);
    if t.len() < 2 || t[0] != '(' || t[t.len() - 1] != ')' {
        return None;
    }
    let mut mid: Vec<char> = Vec::new();
    let mut i: usize = 1;
    while i < t.len() - 1
        invariant
            t.len() >= 2,
            1 <= i <= t.len() - 1,
            mid@ == t@.subrange(1, i as int),
        decreases t.len() - i,
    {
        mid.push(t[i]);
        assert(t@.subrange(1, i + 1) =~= t@.subrange(1, i as int).push(t@[i as int]));
        i += 1;
    }
    let inner = trim_chars(&mid);
    let kw_str = "skk-ignore-dic-word";
    let kw = chars_of(kw_str);
    proof {
        reveal_strlit("skk-ignore-dic-word");
        assert(kw@ =~= keyword());
    }
    if inner.len() < kw.len() {
        return None;
    }
    let mut k: usize = 0;
    while k < kw.len()
        invariant
            kw@ == keyword(),
            kw.len() <= inner.len(),
            k <= kw.len(),
            forall|x: int| 0 <= x < k ==> inner@[x] == kw@[x],
        decreases kw.len() - k,
    {
        if inner[k] != kw[k] {
            assert(inner@.take(kw.len() as int)[k as int] != keyword()[k as int]);
            return None;
        }
        k += 1;
    }
    assert(inner@.take(kw.len() as int) =~= keyword());
    let mut rest: Vec<char> = Vec::new();
    let mut p: usize = kw.len();
    while p < inner.len()
        invariant
            kw.len() <= p <= inner.len(),
            rest@ == inner@.subrange(kw.len() as int, p as int),
        decreases inner.len() - p,
    {
        rest.push(inner[p]);
        assert(inner@.subrange(kw.len() as int, p + 1) =~= inner@.subrange(kw.len() as int, p as int).push(inner@[p as int]));
        p += 1;
    }
    assert(rest@ =~= inner@.skip(keyword().len() as int));
    if rest.len() > 0 && !is_ascii_whitespace(rest[0]) {
        return None;
    }
    let body = trim_start_chars(&rest);
    let ghost start = WordScan::Between(Seq::empty());
    // Scanner state: 0 between words, 1 inside a word, 2 after a backslash.
    let mut mode: u8 = 0;
    let mut words: Vec<String> = Vec::new();
    let mut cur = String::new();
    let mut q: usize = 0;
    assert(body@.take(0) =~= Seq::<char>::empty());
    assert(strs_view(words@) =~= Seq::<Seq<char>>::empty());
    while q < body.len()
        invariant
            q <= body.len(),
            mode <= 2,
            scan_from(start, body@.take(q as int)) == (if mode == 0 {
                WordScan::Between(strs_view(words@))
            } else if mode == 1 {
                WordScan::InWord(strs_view(words@), cur@)
            } else {
                WordScan::Escape(strs_view(words@), cur@)
            }),
        decreases body.len() - q,
    {
        let c = body[q];
        proof {
            lemma_scan_push(start, body@.take(q as int), c);
            assert(body@.take(q + 1) =~= body@.take(q as int).push(c));
        }
        if mode == 0 {
            if is_ascii_whitespace(c) {
            } else if c == '"' {
                mode = 1;
                cur = String::new();
            } else {
                proof {
                    lemma_scan_concat(start, body@.take(q + 1), body@.skip(q + 1));
                    lemma_scan_fail(body@.skip(q + 1));
                    assert(body@.take(q + 1) + body@.skip(q + 1) =~= body@);
                }
                return None;
            }
        } else if mode == 1 {
            if c == '"' {
                let ghost prev = words@;
                let w = cur;
                cur = String::new();
                words.push(w);
                proof {
                    assert(strs_view(words@) =~= strs_view(prev).push(words@.last()@));
                }
                mode = 0;
            } else if c == '\\' {
                mode = 2;
            } else {
                push_char(&mut cur, c);
            }
        } else {
            if c == '"' || c == '\\' {
                push_char(&mut cur, c);
                mode = 1;
            } else {
                proof {
                    lemma_scan_concat(start, body@.take(q + 1), body@.skip(q + 1));
                    lemma_scan_fail(body@.skip(q + 1));
                    assert(body@.take(q + 1) + body@.skip(q + 1) =~= body@);
                }
                return None;
            }
        }
        q += 1;
    }
    assert(body@.take(body.len() as int) =~= body@);
    if mode == 0 {
        Some(words)
    } else {
        None
    }
}

/// Appends a string to `out`, escaping `\` and `"`.
fn push_escaped(out: &mut String, w: &str)
    ensures
        final(out)@ == old(out)@ + escape_seq(w@),
{
    let cs = chars_of(w);
    let mut i: usize = 0;
    while i < cs.len()
        invariant
            i <= cs.len(),
            cs@ == w@,
            out@ == old(out)@ + escape_seq(cs@.take(i as int)),
        decreases cs.len() - i,
    {
        let c = cs[i];
        proof {
            assert(cs@.take(i + 1).drop_last() =~= cs@.take(i as int));
        }
        if c == '\\' {
            push_char(out, '\\');
            push_char(out, '\\');
        } else if c == '"' {
            push_char(out, '\\');
            push_char(out, '"');
        } else {
            push_char(out, c);
        }
        proof {
            assert(out@ =~= old(out)@ + escape_seq(cs@.take(i + 1)));
        }
        i += 1;
    }
    assert(cs@.take(cs.len() as int) =~= w@);
}

/// Renders a `LispForm::IgnoreDicWord` back to its S-expression string.
/// Used when re-serializing a user dictionary that contains such an entry.
pub fn render_ignore_dic_word(words: &[String]) -> (r: String)
    ensures
        r@ == spec_render(strs_view(words@)),
{
    let mut out = String::new();
    out.append("(skk-ignore-dic-word ");
    proof {
        reveal_strlit("(skk-ignore-dic-word ");
        assert(out@ =~= seq!['('] + keyword() + seq![' ']);
    }
    let ghost head = out@;
    let mut i: usize = 0;
    while i < words.len()
        invariant
            i <= words.len(),
            out@ == head + join_quoted(strs_view(words@.take(i as int))),
        decreases words.len() - i,
    {
        let ghost before = out@;
        if i > 0 {
            push_char(&mut out, ' ');
        }
        push_char(&mut out, '"');
        push_escaped(&mut out, words[i].as_str());
        push_char(&mut out, '"');
        proof {
            let ws = strs_view(words@.take(i + 1));
            assert(ws.drop_last() =~= strs_view(words@.take(i as int)));
            assert(ws.last() == words@[i as int]@);
            if i == 0 {
                assert(out@ =~= before + quoted(words@[i as int]@));
            } else {
                assert(out@ =~= before + seq![' '] + quoted(words@[i as int]@));
            }
        }
        i += 1;
    }
    push_char(&mut out, ')');
    assert(words@.take(words.len() as int) =~= words@);
    assert(out@ =~= spec_render(strs_view(words@)));
    out
}

} // verus!
