//! What a saved user dictionary reads back as: the text that `UserDict`
//! writes, parsed again, answers every lookup as the dictionary did.

use vstd::prelude::*;

use crate::dict::entry::{CandidateView, EntryView};
use crate::dict::file::{
    add_entry, add_to_buckets, all_lines, semi_from, bucket_index, bucket_lines, buckets_distinct, cand_text, cands_acc,
    entries_wf, entry_line, field_cand, finish_field, head_index, heads_of, join_nl, join_slash,
    key_index, lemma_bucket_index, lemma_bucket_index_is, lemma_head_index, lemma_head_index_is,
    lemma_key_index, lemma_key_index_heads, lookup_in, parse_dict_upto, sep_from, spec_dict_line,
    spec_parse_cands, spec_parse_dict, spec_serialize, split_okuri, BucketView, DictLine, HeadwordView,
    NASI_HEADER, USER_DICT_HEADER,
};
use crate::kana::parser::{split_acc, split_lines};
use crate::text::{spec_is_whitespace, trim_end_seq, trim_seq, trim_start_seq};

verus! {

// ── Lines ────────────────────────────────────────────────────────────────────

/// `s` holds no `c`.
pub open spec fn lacks(s: Seq<char>, c: char) -> bool {
    forall|i: int| 0 <= i < s.len() ==> s[i] != c
}

proof fn lemma_split_acc_plain(s: Seq<char>)
    requires
        lacks(s, '\n'),
    ensures
        split_acc(s).0 == Seq::<Seq<char>>::empty(),
        split_acc(s).1 == s,
    decreases s.len(),
{
    if s.len() > 0 {
        let d = s.drop_last();
        assert(lacks(d, '\n')) by {
            assert forall|i: int| 0 <= i < d.len() implies d[i] != '\n' by {
                assert(d[i] == s[i]);
            }
        }
        lemma_split_acc_plain(d);
        assert(d.push(s.last()) =~= s);
    }
}

proof fn lemma_split_acc_nl(x: Seq<char>, y: Seq<char>)
    ensures
        split_acc(x + seq!['\n'] + y).0 == split_acc(x).0.push(split_acc(x).1) + split_acc(y).0,
        split_acc(x + seq!['\n'] + y).1 == split_acc(y).1,
    decreases y.len(),
{
    let z = x + seq!['\n'] + y;
    let p = split_acc(x).0.push(split_acc(x).1);
    if y.len() == 0 {
        assert(z.drop_last() =~= x);
        assert(p + Seq::<Seq<char>>::empty() =~= p);
    } else {
        let y2 = y.drop_last();
        lemma_split_acc_nl(x, y2);
        assert(z.drop_last() =~= x + seq!['\n'] + y2);
        let q = split_acc(y2);
        if y.last() == '\n' {
            assert((p + q.0).push(q.1) =~= p + q.0.push(q.1));
        }
    }
}

/// Splitting at a `'\n'` splits the two sides apart.
proof fn lemma_split_lines_nl(x: Seq<char>, y: Seq<char>)
    ensures
        split_lines(x + seq!['\n'] + y) == split_lines(x) + split_lines(y),
{
    lemma_split_acc_nl(x, y);
    let p = split_acc(x).0.push(split_acc(x).1);
    let q = split_acc(y);
    assert((p + q.0).push(q.1) =~= p + q.0.push(q.1));
}

proof fn lemma_split_lines_plain(s: Seq<char>)
    requires
        lacks(s, '\n'),
    ensures
        split_lines(s) == seq![s],
{
    lemma_split_acc_plain(s);
    assert(Seq::<Seq<char>>::empty().push(s) =~= seq![s]);
}

/// Lines that hold no `'\n'`, joined and split again.
proof fn lemma_split_join(ls: Seq<Seq<char>>)
    requires
        ls.len() > 0,
        forall|i: int| 0 <= i < ls.len() ==> lacks(#[trigger] ls[i], '\n'),
    ensures
        split_lines(join_nl(ls)) == ls,
    decreases ls.len(),
{
    if ls.len() == 1 {
        lemma_split_lines_plain(ls[0]);
        assert(seq![ls[0]] =~= ls);
    } else {
        let d = ls.drop_last();
        assert forall|i: int| 0 <= i < d.len() implies lacks(#[trigger] d[i], '\n') by {
            assert(d[i] == ls[i]);
        }
        lemma_split_join(d);
        lemma_split_lines_nl(join_nl(d), ls.last());
        lemma_split_lines_plain(ls.last());
        assert(d + seq![ls.last()] =~= ls);
    }
}

// ── Entry lines ──────────────────────────────────────────────────────────────

/// The characters an okurigana key adds to the midashi in a line.
pub open spec fn okuri_chars(o: Option<Seq<char>>) -> Seq<char> {
    match o {
        Some(x) => x,
        None => Seq::empty(),
    }
}

/// `s` holds no `" /"`.
pub open spec fn no_sep(s: Seq<char>) -> bool {
    forall|i: int| 0 <= i && i + 1 < s.len() ==> !(s[i] == ' ' && #[trigger] s[i + 1] == '/')
}

/// A candidate whose text is one field that reads back as the candidate.
pub open spec fn cand_writable(c: CandidateView) -> bool {
    let t = cand_text(c);
    &&& t.len() > 0
    &&& lacks(t, '/')
    &&& lacks(t, '\n')
    &&& c.word.len() > 0
    &&& field_cand(t) == c
}

/// A bucket whose line reads back as the bucket: the midashi with its
/// okurigana is a non-empty run that starts with neither `;` nor white
/// space, holds no `" /"` and no line break, and splits back into the
/// midashi and the okurigana; every candidate is writable.
pub open spec fn bucket_writable(m: Seq<char>, b: BucketView) -> bool {
    let mo = m + okuri_chars(b.okuri);
    &&& mo.len() > 0
    &&& mo[0] != ';'
    &&& !spec_is_whitespace(mo[0])
    &&& no_sep(mo)
    &&& lacks(mo, '\n')
    &&& split_okuri(mo) == (m, b.okuri)
    &&& forall|k: int| 0 <= k < b.candidates.len() ==> cand_writable(#[trigger] b.candidates[k])
}

proof fn lemma_semi_at(f: Seq<char>, p: int, k: int)
    requires
        0 <= p <= k <= f.len(),
        k < f.len() ==> f[k] == ';',
        forall|i: int| p <= i < k ==> f[i] != ';',
    ensures
        semi_from(f, p) == (if k < f.len() { Some(k) } else { None::<int> }),
    decreases k - p,
{
    if p < k {
        lemma_semi_at(f, p + 1, k);
    }
}

/// A plain candidate, with or without an annotation, is writable when its
/// word is non-empty, does not open with `(` and holds no `/`, `;` or line
/// break, and its annotation holds no `/` or line break.
pub proof fn lemma_plain_cand_writable(c: CandidateView)
    requires
        c.lisp_form is None,
        c.word.len() > 0,
        c.word[0] != '(',
        lacks(c.word, '/'),
        lacks(c.word, ';'),
        lacks(c.word, '\n'),
        c.annotation matches Some(a) ==> lacks(a, '/') && lacks(a, '\n'),
    ensures
        cand_writable(c),
{
    let w = c.word;
    match c.annotation {
        None => {
            lemma_semi_at(w, 0, w.len() as int);
        },
        Some(a) => {
            let t = w + seq![';'] + a;
            assert forall|i: int| 0 <= i < w.len() implies t[i] != ';' by {
                assert(t[i] == w[i]);
            }
            lemma_semi_at(t, 0, w.len() as int);
            assert(t.take(w.len() as int) =~= w);
            assert(t.skip(w.len() as int + 1) =~= a);
            assert forall|i: int| 0 <= i < t.len() implies t[i] != '/' && t[i] != '\n' by {
                if i < w.len() {
                    assert(t[i] == w[i]);
                } else if i > w.len() {
                    assert(t[i] == a[i - w.len() - 1]);
                }
            }
        },
    }
}

proof fn lemma_sep_at(line: Seq<char>, p: int, k: int)
    requires
        0 <= p <= k,
        k + 1 < line.len(),
        line[k] == ' ',
        line[k + 1] == '/',
        forall|i: int| p <= i < k ==> !(line[i] == ' ' && #[trigger] line[i + 1] == '/'),
    ensures
        sep_from(line, p) == Some(k),
    decreases k - p,
{
    if p < k {
        lemma_sep_at(line, p + 1, k);
    }
}

proof fn lemma_cands_plain(y: Seq<char>)
    requires
        lacks(y, '/'),
    ensures
        cands_acc(y).0 == Some(Seq::<CandidateView>::empty()),
        cands_acc(y).1 == y,
    decreases y.len(),
{
    if y.len() > 0 {
        let d = y.drop_last();
        assert(lacks(d, '/')) by {
            assert forall|i: int| 0 <= i < d.len() implies d[i] != '/' by {
                assert(d[i] == y[i]);
            }
        }
        lemma_cands_plain(d);
        assert(d.push(y.last()) =~= y);
    }
}

proof fn lemma_cands_slash(x: Seq<char>, y: Seq<char>)
    requires
        lacks(y, '/'),
    ensures
        cands_acc(x + seq!['/'] + y).0 == finish_field(cands_acc(x).0, cands_acc(x).1),
        cands_acc(x + seq!['/'] + y).1 == y,
    decreases y.len(),
{
    let z = x + seq!['/'] + y;
    if y.len() == 0 {
        assert(z.drop_last() =~= x);
    } else {
        let d = y.drop_last();
        assert(lacks(d, '/')) by {
            assert forall|i: int| 0 <= i < d.len() implies d[i] != '/' by {
                assert(d[i] == y[i]);
            }
        }
        lemma_cands_slash(x, d);
        assert(z.drop_last() =~= x + seq!['/'] + d);
        assert(d.push(y.last()) =~= y);
    }
}

proof fn lemma_cands_join(cs: Seq<CandidateView>)
    requires
        cs.len() > 0,
        forall|k: int| 0 <= k < cs.len() ==> cand_writable(#[trigger] cs[k]),
    ensures
        cands_acc(join_slash(cs)).0 == Some(cs.drop_last()),
        cands_acc(join_slash(cs)).1 == cand_text(cs.last()),
    decreases cs.len(),
{
    if cs.len() == 1 {
        assert(cand_writable(cs[0]));
        lemma_cands_plain(cand_text(cs[0]));
        assert(cs.drop_last() =~= Seq::<CandidateView>::empty());
    } else {
        let d = cs.drop_last();
        assert forall|k: int| 0 <= k < d.len() implies cand_writable(#[trigger] d[k]) by {
            assert(d[k] == cs[k]);
        }
        lemma_cands_join(d);
        assert(cand_writable(cs.last()));
        assert(cand_writable(d.last()));
        lemma_cands_slash(join_slash(d), cand_text(cs.last()));
        assert(d.drop_last().push(d.last()) =~= d);
    }
}

/// The candidate part of a line, with its closing `/`, reads back as the
/// candidates.
proof fn lemma_parse_cands_line(cs: Seq<CandidateView>)
    requires
        forall|k: int| 0 <= k < cs.len() ==> cand_writable(#[trigger] cs[k]),
    ensures
        spec_parse_cands(join_slash(cs) + seq!['/']) == Some(cs),
{
    let s = join_slash(cs) + seq!['/'];
    assert(s =~= join_slash(cs) + seq!['/'] + Seq::<char>::empty());
    lemma_cands_slash(join_slash(cs), Seq::empty());
    if cs.len() == 0 {
        assert(join_slash(cs) =~= Seq::<char>::empty());
        lemma_cands_plain(Seq::empty());
        assert(Seq::<CandidateView>::empty() =~= cs);
    } else {
        lemma_cands_join(cs);
        assert(cand_writable(cs.last()));
        assert(cs.drop_last().push(cs.last()) =~= cs);
    }
}

proof fn lemma_join_slash_lacks(cs: Seq<CandidateView>, c: char)
    requires
        c != '/',
        forall|k: int| 0 <= k < cs.len() ==> lacks(cand_text(#[trigger] cs[k]), c),
    ensures
        lacks(join_slash(cs), c),
    decreases cs.len(),
{
    if cs.len() == 1 {
        assert(lacks(cand_text(cs[0]), c));
    } else if cs.len() > 1 {
        let d = cs.drop_last();
        assert forall|k: int| 0 <= k < d.len() implies lacks(cand_text(#[trigger] d[k]), c) by {
            assert(d[k] == cs[k]);
        }
        lemma_join_slash_lacks(d, c);
        assert(lacks(cand_text(cs.last()), c));
        let j = join_slash(cs);
        let a = join_slash(d);
        let t = cand_text(cs.last());
        assert forall|i: int| 0 <= i < j.len() implies j[i] != c by {
            if i < a.len() {
                assert(j[i] == a[i]);
            } else if i > a.len() {
                assert(j[i] == t[i - a.len() - 1]);
            }
        }
    }
}

/// The line of a writable bucket holds no line break.
proof fn lemma_entry_line_lacks_nl(m: Seq<char>, b: BucketView)
    requires
        bucket_writable(m, b),
    ensures
        lacks(entry_line(m, b), '\n'),
{
    let mo = m + okuri_chars(b.okuri);
    let cs = b.candidates;
    assert forall|k: int| 0 <= k < cs.len() implies lacks(cand_text(#[trigger] cs[k]), '\n') by {
        assert(cand_writable(cs[k]));
    }
    lemma_join_slash_lacks(cs, '\n');
    let j = join_slash(cs);
    let l = entry_line(m, b);
    assert(l =~= mo + seq![' ', '/'] + j + seq!['/']);
    assert forall|i: int| 0 <= i < l.len() implies l[i] != '\n' by {
        if i < mo.len() {
            assert(l[i] == mo[i]);
        } else if mo.len() + 2 <= i < mo.len() + 2 + j.len() {
            assert(l[i] == j[i - mo.len() - 2]);
        }
    }
}

/// The line of a writable bucket reads back as the bucket's entry.
proof fn lemma_entry_line_reads(m: Seq<char>, b: BucketView)
    requires
        bucket_writable(m, b),
    ensures
        spec_dict_line(entry_line(m, b)) == DictLine::Entry(m, b.okuri, b.candidates),
{
    let mo = m + okuri_chars(b.okuri);
    let cs = b.candidates;
    let j = join_slash(cs);
    let l = entry_line(m, b);
    let k = mo.len() as int;
    assert(l =~= mo + seq![' ', '/'] + j + seq!['/']);
    assert(l[0] == mo[0]);
    // no white space at either end
    assert(trim_start_seq(l) == l);
    assert(trim_end_seq(l) == l);
    assert(trim_seq(l) == l);
    assert forall|i: int| 0 <= i < k implies !(l[i] == ' ' && #[trigger] l[i + 1] == '/') by {
        assert(l[i] == mo[i]);
        if i + 1 < k {
            assert(l[i + 1] == mo[i + 1]);
        }
    }
    lemma_sep_at(l, 0, k);
    assert(l.take(k) =~= mo);
    assert(l.skip(k + 2) =~= j + seq!['/']);
    lemma_parse_cands_line(cs);
}

// ── Reading lines back ───────────────────────────────────────────────────────

/// Candidates found in two places, the first place's first.
pub open spec fn combine(a: Option<Seq<CandidateView>>, b: Option<Seq<CandidateView>>) -> Option<Seq<CandidateView>> {
    match a {
        None => b,
        Some(x) => match b {
            None => Some(x),
            Some(y) => Some(x + y),
        },
    }
}

/// The candidates one line gives to `(m, o)`.
pub open spec fn line_gives(line: Seq<char>, m: Seq<char>, o: Option<Seq<char>>) -> Option<Seq<CandidateView>> {
    match spec_dict_line(line) {
        DictLine::Entry(m2, o2, cs) => if m2 == m && o2 == o {
            Some(cs)
        } else {
            None
        },
        _ => None,
    }
}

/// The candidates that the lines give to `(m, o)`, in line order.
pub open spec fn gathered(lines: Seq<Seq<char>>, m: Seq<char>, o: Option<Seq<char>>) -> Option<Seq<CandidateView>>
    decreases lines.len(),
{
    if lines.len() == 0 {
        None
    } else {
        combine(gathered(lines.drop_last(), m, o), line_gives(lines.last(), m, o))
    }
}

/// No line is malformed.
pub open spec fn no_bad(lines: Seq<Seq<char>>) -> bool {
    forall|k: int| 0 <= k < lines.len() ==> !(spec_dict_line(#[trigger] lines[k]) is Bad)
}

/// The entry of `(m, o)` holding `r`.
pub open spec fn entry_of(m: Seq<char>, o: Option<Seq<char>>, r: Option<Seq<CandidateView>>) -> Option<EntryView> {
    match r {
        Some(cs) => Some(EntryView { midashi: m, okuri: o, candidates: cs }),
        None => None,
    }
}

/// The candidates of the bucket for `o`.
pub open spec fn bucket_cands(bs: Seq<BucketView>, o: Option<Seq<char>>) -> Option<Seq<CandidateView>> {
    match bucket_index(bs, o) {
        Some(j) => Some(bs[j].candidates),
        None => None,
    }
}

/// The candidates of `(m, o)` among headwords.
pub open spec fn head_cands(hs: Seq<HeadwordView>, m: Seq<char>, o: Option<Seq<char>>) -> Option<Seq<CandidateView>> {
    match head_index(hs, m) {
        Some(i) => bucket_cands(hs[i].buckets, o),
        None => None,
    }
}

proof fn lemma_combine_assoc(a: Option<Seq<CandidateView>>, b: Option<Seq<CandidateView>>, c: Option<Seq<CandidateView>>)
    ensures
        combine(combine(a, b), c) == combine(a, combine(b, c)),
{
    if a is Some && b is Some && c is Some {
        assert(a->0 + b->0 + c->0 =~= a->0 + (b->0 + c->0));
    }
}

proof fn lemma_gathered_concat(x: Seq<Seq<char>>, y: Seq<Seq<char>>, m: Seq<char>, o: Option<Seq<char>>)
    ensures
        gathered(x + y, m, o) == combine(gathered(x, m, o), gathered(y, m, o)),
    decreases y.len(),
{
    if y.len() == 0 {
        assert(x + y =~= x);
    } else {
        let d = y.drop_last();
        lemma_gathered_concat(x, d, m, o);
        assert((x + y).drop_last() =~= x + d);
        assert((x + y).last() == y.last());
        lemma_combine_assoc(gathered(x, m, o), gathered(d, m, o), line_gives(y.last(), m, o));
    }
}

proof fn lemma_no_bad_concat(x: Seq<Seq<char>>, y: Seq<Seq<char>>)
    requires
        no_bad(x),
        no_bad(y),
    ensures
        no_bad(x + y),
{
    assert forall|k: int| 0 <= k < (x + y).len() implies !(spec_dict_line(#[trigger] (x + y)[k]) is Bad) by {
        if k < x.len() {
            assert((x + y)[k] == x[k]);
        } else {
            assert((x + y)[k] == y[k - x.len()]);
        }
    }
}

/// A comment line or an empty line gives nothing.
proof fn lemma_skip_line(l: Seq<char>, m: Seq<char>, o: Option<Seq<char>>)
    requires
        l.len() == 0 || l[0] == ';',
    ensures
        spec_dict_line(l) is Skip,
        gathered(seq![l], m, o) is None,
        no_bad(seq![l]),
{
    if l.len() == 0 {
        assert(trim_start_seq(l) == l);
        assert(trim_end_seq(l) == l);
    }
    assert(seq![l].drop_last() =~= Seq::<Seq<char>>::empty());
    assert(gathered(Seq::<Seq<char>>::empty(), m, o) is None);
    assert(line_gives(l, m, o) is None);
}

/// Looking up after one more entry line.
proof fn lemma_add_lookup(
    hs: Seq<HeadwordView>,
    m2: Seq<char>,
    o2: Option<Seq<char>>,
    cs2: Seq<CandidateView>,
    m: Seq<char>,
    o: Option<Seq<char>>,
)
    ensures
        head_cands(add_entry(hs, m2, o2, cs2), m, o) == combine(
            head_cands(hs, m, o),
            if m2 == m && o2 == o { Some(cs2) } else { None },
        ),
{
    let r = add_entry(hs, m2, o2, cs2);
    lemma_head_index(hs, m2);
    lemma_head_index(hs, m);
    match head_index(hs, m2) {
        Some(i) => {
            assert(r.len() == hs.len());
            if m == m2 {
                lemma_head_index_is(r, m, i);
                let bs = hs[i].buckets;
                let nb = add_to_buckets(bs, o2, cs2);
                assert(r[i].buckets == nb);
                lemma_bucket_index(bs, o2);
                lemma_bucket_index(bs, o);
                match bucket_index(bs, o2) {
                    Some(j) => {
                        assert(nb.len() == bs.len());
                        if o == o2 {
                            lemma_bucket_index_is(nb, o, j);
                        } else {
                            match bucket_index(bs, o) {
                                Some(j2) => lemma_bucket_index_is(nb, o, j2),
                                None => {
                                    lemma_bucket_index(nb, o);
                                    assert forall|q: int| 0 <= q < nb.len() implies nb[q].okuri != o by {
                                        if q != j {
                                            assert(nb[q] == bs[q]);
                                        }
                                    }
                                },
                            }
                        }
                    },
                    None => {
                        assert(nb == bs.push(BucketView { okuri: o2, candidates: cs2 }));
                        if o == o2 {
                            lemma_bucket_index_is(nb, o, bs.len() as int);
                        } else {
                            match bucket_index(bs, o) {
                                Some(j2) => lemma_bucket_index_is(nb, o, j2),
                                None => {
                                    lemma_bucket_index(nb, o);
                                    assert forall|q: int| 0 <= q < nb.len() implies nb[q].okuri != o by {
                                        if q < bs.len() {
                                            assert(nb[q] == bs[q]);
                                        }
                                    }
                                },
                            }
                        }
                    },
                }
            } else {
                match head_index(hs, m) {
                    Some(k) => {
                        assert(k != i);
                        lemma_head_index_is(r, m, k);
                    },
                    None => {
                        lemma_head_index(r, m);
                        assert forall|q: int| 0 <= q < r.len() implies r[q].midashi != m by {
                            if q != i {
                                assert(r[q] == hs[q]);
                            }
                        }
                    },
                }
            }
        },
        None => {
            assert(r == hs.push(HeadwordView { midashi: m2, buckets: seq![BucketView { okuri: o2, candidates: cs2 }] }));
            if m == m2 {
                lemma_head_index_is(r, m, hs.len() as int);
                let nb = seq![BucketView { okuri: o2, candidates: cs2 }];
                if o == o2 {
                    lemma_bucket_index_is(nb, o, 0);
                } else {
                    lemma_bucket_index(nb, o);
                }
            } else {
                match head_index(hs, m) {
                    Some(k) => lemma_head_index_is(r, m, k),
                    None => {
                        lemma_head_index(r, m);
                        assert forall|q: int| 0 <= q < r.len() implies r[q].midashi != m by {
                            if q < hs.len() {
                                assert(r[q] == hs[q]);
                            }
                        }
                    },
                }
            }
        },
    }
}

proof fn lemma_gathered_one(l: Seq<char>, m: Seq<char>, o: Option<Seq<char>>)
    ensures
        gathered(seq![l], m, o) == line_gives(l, m, o),
{
    assert(seq![l].drop_last() =~= Seq::<Seq<char>>::empty());
    assert(gathered(Seq::<Seq<char>>::empty(), m, o) is None);
}

/// Parsing lines of which none is malformed gathers, for each key, the
/// candidates of its lines.
proof fn lemma_parse_gathered(lines: Seq<Seq<char>>, n: nat, m: Seq<char>, o: Option<Seq<char>>)
    requires
        n <= lines.len(),
        forall|k: int| 0 <= k < n ==> !(spec_dict_line(#[trigger] lines[k]) is Bad),
    ensures
        parse_dict_upto(lines, n) matches Ok(hs) && head_cands(hs, m, o) == gathered(lines.take(n as int), m, o),
    decreases n,
{
    if n == 0 {
        assert(lines.take(0) =~= Seq::<Seq<char>>::empty());
    } else {
        lemma_parse_gathered(lines, (n - 1) as nat, m, o);
        assert(lines.take(n as int).drop_last() =~= lines.take(n - 1));
        assert(lines.take(n as int).last() == lines[n - 1]);
        assert(!(spec_dict_line(lines[n - 1]) is Bad));
        if let Ok(hs) = parse_dict_upto(lines, (n - 1) as nat) {
            if let DictLine::Entry(m2, o2, cs) = spec_dict_line(lines[n - 1]) {
                lemma_add_lookup(hs, m2, o2, cs, m, o);
            }
        }
    }
}

/// Every line holds no line break and is well-formed.
pub open spec fn clean(ls: Seq<Seq<char>>) -> bool {
    forall|i: int| 0 <= i < ls.len() ==> lacks(#[trigger] ls[i], '\n') && !(spec_dict_line(ls[i]) is Bad)
}

proof fn lemma_clean_concat(x: Seq<Seq<char>>, y: Seq<Seq<char>>)
    requires
        clean(x),
        clean(y),
    ensures
        clean(x + y),
{
    assert forall|k: int| 0 <= k < (x + y).len() implies lacks(#[trigger] (x + y)[k], '\n') && !(spec_dict_line((x + y)[k]) is Bad) by {
        if k < x.len() {
            assert((x + y)[k] == x[k]);
        } else {
            assert((x + y)[k] == y[k - x.len()]);
        }
    }
}

/// Every bucket of every entry is writable.
pub open spec fn entries_writable(es: Seq<(Seq<char>, Seq<BucketView>)>) -> bool {
    forall|k: int, j: int| 0 <= k < es.len() && 0 <= j < es[k].1.len() ==> bucket_writable(es[k].0, #[trigger] es[k].1[j])
}

proof fn lemma_bucket_lines(m2: Seq<char>, bs: Seq<BucketView>, ari: bool, m: Seq<char>, o: Option<Seq<char>>)
    requires
        forall|j: int| 0 <= j < bs.len() ==> bucket_writable(m2, #[trigger] bs[j]),
        buckets_distinct(bs),
    ensures
        gathered(bucket_lines(m2, bs, ari), m, o) == (if m2 == m && (o is Some) == ari {
            bucket_cands(bs, o)
        } else {
            None
        }),
        clean(bucket_lines(m2, bs, ari)),
    decreases bs.len(),
{
    if bs.len() == 0 {
        assert(gathered(Seq::<Seq<char>>::empty(), m, o) is None);
        assert(bucket_index(bs, o) is None);
    } else {
        let d = bs.drop_last();
        let b = bs.last();
        assert forall|j: int| 0 <= j < d.len() implies bucket_writable(m2, #[trigger] d[j]) by {
            assert(d[j] == bs[j]);
        }
        assert(buckets_distinct(d)) by {
            assert forall|i: int, j: int| 0 <= i < j < d.len() implies d[i].okuri != d[j].okuri by {
                assert(d[i] == bs[i]);
                assert(d[j] == bs[j]);
            }
        }
        lemma_bucket_lines(m2, d, ari, m, o);
        assert(bucket_writable(m2, bs[bs.len() - 1]));
        let tail: Seq<Seq<char>> = if (b.okuri is Some) == ari {
            seq![entry_line(m2, b)]
        } else {
            Seq::empty()
        };
        assert(bucket_lines(m2, bs, ari) == bucket_lines(m2, d, ari) + tail);
        lemma_gathered_concat(bucket_lines(m2, d, ari), tail, m, o);
        lemma_entry_line_reads(m2, b);
        lemma_entry_line_lacks_nl(m2, b);
        if (b.okuri is Some) == ari {
            lemma_gathered_one(entry_line(m2, b), m, o);
            assert(clean(tail)) by {
                assert(tail[0] == entry_line(m2, b));
            }
        } else {
            assert(gathered(tail, m, o) is None);
            assert(clean(tail));
        }
        lemma_clean_concat(bucket_lines(m2, d, ari), tail);
        lemma_bucket_index(d, o);
        match bucket_index(d, o) {
            Some(i) => {
                assert(d[i] == bs[i]);
                assert(bs[i].okuri != b.okuri);
            },
            None => {},
        }
    }
}

proof fn lemma_all_lines(es: Seq<(Seq<char>, Seq<BucketView>)>, ari: bool, m: Seq<char>, o: Option<Seq<char>>)
    requires
        entries_wf(es),
        entries_writable(es),
    ensures
        gathered(all_lines(es, ari), m, o) == (if (o is Some) == ari {
            match key_index(es, m) {
                Some(k) => bucket_cands(es[k].1, o),
                None => None,
            }
        } else {
            None
        }),
        clean(all_lines(es, ari)),
    decreases es.len(),
{
    if es.len() == 0 {
        assert(gathered(Seq::<Seq<char>>::empty(), m, o) is None);
    } else {
        let d = es.drop_last();
        let e = es.last();
        assert(entries_wf(d)) by {
            assert forall|i: int, j: int| 0 <= i < j < d.len() implies d[i].0 != d[j].0 by {
                assert(d[i] == es[i]);
                assert(d[j] == es[j]);
            }
            assert forall|i: int| 0 <= i < d.len() implies buckets_distinct(#[trigger] d[i].1) by {
                assert(d[i] == es[i]);
            }
        }
        assert(entries_writable(d)) by {
            assert forall|k: int, j: int| 0 <= k < d.len() && 0 <= j < d[k].1.len() implies bucket_writable(d[k].0, #[trigger] d[k].1[j]) by {
                assert(d[k] == es[k]);
            }
        }
        lemma_all_lines(d, ari, m, o);
        let l = es.len() - 1;
        assert(e == es[l]);
        assert(buckets_distinct(es[l].1));
        assert forall|j: int| 0 <= j < e.1.len() implies bucket_writable(e.0, #[trigger] e.1[j]) by {
            assert(bucket_writable(es[l].0, es[l].1[j]));
        }
        lemma_bucket_lines(e.0, e.1, ari, m, o);
        lemma_gathered_concat(all_lines(d, ari), bucket_lines(e.0, e.1, ari), m, o);
        lemma_clean_concat(all_lines(d, ari), bucket_lines(e.0, e.1, ari));
        lemma_key_index(d, m);
        match key_index(d, m) {
            Some(k) => {
                assert(d[k] == es[k]);
                assert(es[k].0 != es[l].0);
            },
            None => {},
        }
    }
}

/// The lines of the joined text: `[""]` for no lines.
proof fn lemma_split_joined(ls: Seq<Seq<char>>, m: Seq<char>, o: Option<Seq<char>>)
    requires
        clean(ls),
    ensures
        gathered(split_lines(join_nl(ls)), m, o) == gathered(ls, m, o),
        no_bad(split_lines(join_nl(ls))),
{
    if ls.len() == 0 {
        assert(join_nl(ls) =~= Seq::<char>::empty());
        lemma_split_lines_plain(Seq::empty());
        lemma_skip_line(Seq::empty(), m, o);
        assert(gathered(ls, m, o) is None);
    } else {
        assert forall|i: int| 0 <= i < ls.len() implies lacks(#[trigger] ls[i], '\n') by {}
        lemma_split_join(ls);
    }
}

/// A user dictionary written out and read back answers every lookup as it
/// did, for entries whose lines read back as themselves (see
/// [`bucket_writable`]).
pub proof fn lemma_saved_dict_reads_back(es: Seq<(Seq<char>, Seq<BucketView>)>, m: Seq<char>, o: Option<Seq<char>>)
    requires
        entries_wf(es),
        entries_writable(es),
    ensures
        spec_parse_dict(spec_serialize(es)) matches Ok(hs) && lookup_in(hs, m, o) == lookup_in(heads_of(es), m, o),
{
    reveal_strlit(";; y2skk user dictionary\n;;; okuri-ari entries.\n");
    reveal_strlit("\n;;; okuri-nasi entries.\n");
    let h = USER_DICT_HEADER@;
    let nh = NASI_HEADER@;
    assert(h.len() == 48 && h[24] == '\n' && h[47] == '\n');
    assert(nh.len() == 25 && nh[0] == '\n' && nh[24] == '\n');
    let h1 = h.take(24);
    let h2 = h.subrange(25, 47);
    let n2 = nh.subrange(1, 24);
    assert(lacks(h1, '\n') && h1[0] == ';');
    assert(lacks(h2, '\n') && h2[0] == ';');
    assert(lacks(n2, '\n') && n2[0] == ';');
    let a = all_lines(es, true);
    let b = all_lines(es, false);
    let ja = join_nl(a);
    let jb = join_nl(b);
    let nl = seq!['\n'];
    let e = Seq::<char>::empty();
    let r4 = jb + nl + e;
    let r3 = n2 + nl + r4;
    let r2 = ja + nl + r3;
    let r1 = h2 + nl + r2;
    let text = spec_serialize(es);
    assert(h =~= h1 + nl + h2 + nl);
    assert(nh =~= nl + n2 + nl);
    assert(text =~= h1 + nl + r1);
    lemma_split_lines_nl(h1, r1);
    lemma_split_lines_nl(h2, r2);
    lemma_split_lines_nl(ja, r3);
    lemma_split_lines_nl(n2, r4);
    lemma_split_lines_nl(jb, e);
    lemma_split_lines_plain(h1);
    lemma_split_lines_plain(h2);
    lemma_split_lines_plain(n2);
    lemma_split_lines_plain(e);
    let sa = split_lines(ja);
    let sb = split_lines(jb);
    let ls = split_lines(text);
    let l4 = sb + seq![e];
    let l3 = seq![n2] + l4;
    let l2 = sa + l3;
    let l1 = seq![h2] + l2;
    assert(ls == seq![h1] + l1);
    // what each part gives
    lemma_all_lines(es, true, m, o);
    lemma_all_lines(es, false, m, o);
    lemma_split_joined(a, m, o);
    lemma_split_joined(b, m, o);
    lemma_skip_line(h1, m, o);
    lemma_skip_line(h2, m, o);
    lemma_skip_line(n2, m, o);
    lemma_skip_line(e, m, o);
    lemma_gathered_concat(sb, seq![e], m, o);
    lemma_gathered_concat(seq![n2], l4, m, o);
    lemma_gathered_concat(sa, l3, m, o);
    lemma_gathered_concat(seq![h2], l2, m, o);
    lemma_gathered_concat(seq![h1], l1, m, o);
    lemma_no_bad_concat(sb, seq![e]);
    lemma_no_bad_concat(seq![n2], l4);
    lemma_no_bad_concat(sa, l3);
    lemma_no_bad_concat(seq![h2], l2);
    lemma_no_bad_concat(seq![h1], l1);
    lemma_parse_gathered(ls, ls.len(), m, o);
    assert(ls.take(ls.len() as int) =~= ls);
    // the dictionary's own answer
    lemma_key_index_heads(es, m);
    lemma_key_index(es, m);
    if let Some(k) = key_index(es, m) {
        assert(heads_of(es)[k].buckets == es[k].1);
    }
}

} // verus!
