//! SKK dictionary files: parsing, the read-only `FileDict` and the writable
//! `UserDict`.
//!
//! File format (standard SKK dictionary):
//! - Lines starting with `;` are comments.
//! - Entry lines: `midashi /cand1/cand2/.../`
//!   - Okuri-ari midashi ends with the okurigana consonant (e.g. `あk /明/`).
//!   - Candidate annotations follow `;` inside the slash-delimited field.

use indexmap::IndexMap;
use vstd::prelude::*;
use vstd::string::StringExecFns;

use crate::dict::entry::{
    cands_view, clone_candidates, clone_opt_str, opt_str, strs_view, Candidate, CandidateView, DictEntry,
    DictError, EntryView, LispForm, LispFormView,
};
use crate::dict::lisp::{classify, render_ignore_dic_word, spec_classify, spec_render};
use crate::dict::traits::DictionaryProvider;
use crate::kana::parser::{lines_view, split_lines, split_lines_exec};
use crate::text::{
    chars_of, is_ascii, is_prefix, lemma_lex_total, lemma_lex_transitive, lex_less, lex_lt,
    push_char, starts_with_chars, str_eq, spec_is_ascii, string_from_chars, to_ascii_lowercase,
    spec_to_ascii_lowercase, trim_chars, trim_seq,
};

verus! {

// ── Encoding ──────────────────────────────────────────────────────────────────

/// Character encoding of a dictionary file.
#[derive(Debug, Clone, Copy, PartialEq, Eq, Structural)]
pub enum DictEncoding {
    Utf8,
    EucJp,
}

impl Default for DictEncoding {
    fn default() -> (r: Self)
        ensures
            r == DictEncoding::Utf8,
    {
        DictEncoding::Utf8
    }
}

/// Lower-cased character sequence.
pub open spec fn lower_seq(s: Seq<char>) -> Seq<char> {
    s.map_values(|c: char| spec_to_ascii_lowercase(c))
}

/// Names (compared case-insensitively) that select EUC-JP.
pub open spec fn is_euc_jp_name(lower: Seq<char>) -> bool {
    lower == seq!['e', 'u', 'c', '-', 'j', 'p'] || lower == seq!['e', 'u', 'c', 'j', 'p']
        || lower == seq!['e', 'u', 'c', '_', 'j', 'p']
}

impl DictEncoding {
    /// Parses an encoding name string (case-insensitive).
    pub fn from_str(s: &str) -> (r: Self)
        ensures
            r == (if is_euc_jp_name(lower_seq(s@)) {
                DictEncoding::EucJp
            } else {
                DictEncoding::Utf8
            }),
    {
        let cs = chars_of(s);
        let mut low: Vec<char> = Vec::new();
        let mut i: usize = 0;
        while i < cs.len()
            invariant
                i <= cs.len(),
                cs@ == s@,
                low@ == lower_seq(cs@.take(i as int)),
            decreases cs.len() - i,
        {
            low.push(to_ascii_lowercase(cs[i]));
            assert(lower_seq(cs@.take(i + 1)) =~= lower_seq(cs@.take(i as int)).push(
                spec_to_ascii_lowercase(cs@[i as int]),
            ));
            i += 1;
        }
        assert(cs@.take(cs.len() as int) =~= cs@);
        let euc = if low.len() == 6 {
            low[0] == 'e' && low[1] == 'u' && low[2] == 'c' && (low[3] == '-' || low[3] == '_')
                && low[4] == 'j' && low[5] == 'p'
        } else if low.len() == 5 {
            low[0] == 'e' && low[1] == 'u' && low[2] == 'c' && low[3] == 'j' && low[4] == 'p'
        } else {
            false
        };
        proof {
            if euc {
                if low.len() == 6 && low@[3] == '-' {
                    assert(low@ =~= seq!['e', 'u', 'c', '-', 'j', 'p']);
                } else if low.len() == 6 {
                    assert(low@ =~= seq!['e', 'u', 'c', '_', 'j', 'p']);
                } else {
                    assert(low@ =~= seq!['e', 'u', 'c', 'j', 'p']);
                }
            }
        }
        if euc {
            DictEncoding::EucJp
        } else {
            DictEncoding::Utf8
        }
    }
}

/// What `encoding_rs::EUC_JP.decode` makes of `bytes`: the decoded text and
/// whether malformed sequences were replaced.
pub uninterp spec fn euc_jp_decode(bytes: Seq<u8>) -> (Seq<char>, bool);

/// Decodes with `encoding_rs::EUC_JP.decode` (BOM sniffing, malformed
/// sequences replaced).  The result is named by `euc_jp_decode`; the call
/// panics only when the output buffer size overflows, which the bound on
/// the input length rules out.
#[verifier::external_body]
pub(crate) fn euc_jp_decode_bytes(bytes: &[u8]) -> (r: (String, bool))
    requires
        bytes@.len() < isize::MAX as int / 4,
    ensures
        (r.0@, r.1) == euc_jp_decode(bytes@),
{
    let (cow, _encoding, had_errors) = encoding_rs::EUC_JP.decode(bytes);
    (cow.into_owned(), had_errors)
}

/// Decodes the bytes of an EUC-JP dictionary file to text.  Malformed
/// sequences are replaced rather than rejected.
pub fn decode_euc_jp(bytes: &[u8]) -> (r: Option<String>)
    ensures
        bytes@.len() < isize::MAX as int / 4 ==> r is Some && r.unwrap()@ == euc_jp_decode(bytes@).0,
        bytes@.len() >= isize::MAX as int / 4 ==> r is None,
{
    if bytes.len() < isize::MAX as usize / 4 {
        let (text, _had_errors) = euc_jp_decode_bytes(bytes);
        Some(text)
    } else {
        None
    }
}

// ── Dictionary model ─────────────────────────────────────────────────────────

/// Candidates of one headword for one okurigana key.
#[derive(Debug)]
pub struct OkuriBucket {
    pub okuri: Option<String>,
    pub candidates: Vec<Candidate>,
}

/// A headword with its okurigana buckets.
#[derive(Debug)]
pub struct Headword {
    pub midashi: String,
    pub buckets: Vec<OkuriBucket>,
}

/// Mathematical form of an [`OkuriBucket`].
pub struct BucketView {
    pub okuri: Option<Seq<char>>,
    pub candidates: Seq<CandidateView>,
}

/// Mathematical form of a [`Headword`].
pub struct HeadwordView {
    pub midashi: Seq<char>,
    pub buckets: Seq<BucketView>,
}

impl View for OkuriBucket {
    type V = BucketView;

    open spec fn view(&self) -> BucketView {
        BucketView { okuri: opt_str(self.okuri), candidates: cands_view(self.candidates@) }
    }
}

impl View for Headword {
    type V = HeadwordView;

    open spec fn view(&self) -> HeadwordView {
        HeadwordView { midashi: self.midashi@, buckets: buckets_view(self.buckets@) }
    }
}

pub open spec fn buckets_view(v: Seq<OkuriBucket>) -> Seq<BucketView> {
    v.map_values(|b: OkuriBucket| b@)
}

pub open spec fn headwords_view(v: Seq<Headword>) -> Seq<HeadwordView> {
    v.map_values(|h: Headword| h@)
}

/// Index of the bucket for `okuri`, the first one if several.
pub open spec fn bucket_index(bs: Seq<BucketView>, okuri: Option<Seq<char>>) -> Option<int>
    decreases bs.len(),
{
    if bs.len() == 0 {
        None
    } else {
        match bucket_index(bs.drop_last(), okuri) {
            Some(i) => Some(i),
            None => if bs.last().okuri == okuri {
                Some(bs.len() - 1)
            } else {
                None
            },
        }
    }
}

/// Index of the headword `midashi`, the first one if several.
pub open spec fn head_index(hs: Seq<HeadwordView>, midashi: Seq<char>) -> Option<int>
    decreases hs.len(),
{
    if hs.len() == 0 {
        None
    } else {
        match head_index(hs.drop_last(), midashi) {
            Some(i) => Some(i),
            None => if hs.last().midashi == midashi {
                Some(hs.len() - 1)
            } else {
                None
            },
        }
    }
}

/// `cs` appended to the bucket for `okuri` (created at the end if absent).
pub open spec fn add_to_buckets(bs: Seq<BucketView>, okuri: Option<Seq<char>>, cs: Seq<CandidateView>) -> Seq<BucketView> {
    match bucket_index(bs, okuri) {
        Some(i) => bs.update(i, BucketView { okuri, candidates: bs[i].candidates + cs }),
        None => bs.push(BucketView { okuri, candidates: cs }),
    }
}

/// `cs` appended to the bucket of `(midashi, okuri)`.
pub open spec fn add_entry(
    hs: Seq<HeadwordView>,
    midashi: Seq<char>,
    okuri: Option<Seq<char>>,
    cs: Seq<CandidateView>,
) -> Seq<HeadwordView> {
    match head_index(hs, midashi) {
        Some(i) => hs.update(i, HeadwordView { midashi, buckets: add_to_buckets(hs[i].buckets, okuri, cs) }),
        None => hs.push(HeadwordView { midashi, buckets: seq![BucketView { okuri, candidates: cs }] }),
    }
}

/// The entry of `(midashi, okuri)`, if present.
pub open spec fn lookup_in(hs: Seq<HeadwordView>, midashi: Seq<char>, okuri: Option<Seq<char>>) -> Option<EntryView> {
    match head_index(hs, midashi) {
        Some(i) => match bucket_index(hs[i].buckets, okuri) {
            Some(j) => Some(EntryView { midashi, okuri, candidates: hs[i].buckets[j].candidates }),
            None => None,
        },
        None => None,
    }
}

/// No two buckets share an okurigana key, no two headwords a midashi.
pub open spec fn buckets_distinct(bs: Seq<BucketView>) -> bool {
    forall|i: int, j: int| 0 <= i < j < bs.len() ==> bs[i].okuri != bs[j].okuri
}

pub open spec fn heads_distinct(hs: Seq<HeadwordView>) -> bool {
    &&& forall|i: int, j: int| 0 <= i < j < hs.len() ==> hs[i].midashi != hs[j].midashi
    &&& forall|i: int| 0 <= i < hs.len() ==> buckets_distinct(#[trigger] hs[i].buckets)
}

// ── Line grammar ─────────────────────────────────────────────────────────────

/// Position of the first `" /"` at or after `p`.
pub open spec fn sep_from(line: Seq<char>, p: int) -> Option<int>
    decreases line.len() - p,
{
    if p < 0 || p + 1 >= line.len() {
        None
    } else if line[p] == ' ' && line[p + 1] == '/' {
        Some(p)
    } else {
        sep_from(line, p + 1)
    }
}

/// Splits the okurigana consonant off a midashi: a trailing ASCII letter is
/// the consonant only when the midashi also holds a non-ASCII character.
pub open spec fn split_okuri(raw: Seq<char>) -> (Seq<char>, Option<Seq<char>>) {
    if raw.len() > 0 && (('a' <= raw.last() && raw.last() <= 'z') || ('A' <= raw.last() && raw.last() <= 'Z'))
        && exists|i: int| 0 <= i < raw.len() && !spec_is_ascii(#[trigger] raw[i]) {
        (raw.drop_last(), Some(seq![raw.last()]))
    } else {
        (raw, None)
    }
}

/// Position of the first `;` at or after `p`.
pub open spec fn semi_from(f: Seq<char>, p: int) -> Option<int>
    decreases f.len() - p,
{
    if p < 0 || p >= f.len() {
        None
    } else if f[p] == ';' {
        Some(p)
    } else {
        semi_from(f, p + 1)
    }
}

/// The candidate written in one non-empty `/`-separated field.
pub open spec fn field_cand(f: Seq<char>) -> CandidateView {
    if f.len() > 0 && f[0] == '(' {
        CandidateView {
            word: f,
            annotation: None,
            lisp_form: Some(
                match spec_classify(f) {
                    Some(l) => l,
                    None => LispFormView::Unknown,
                },
            ),
        }
    } else {
        match semi_from(f, 0) {
            Some(k) => CandidateView {
                word: f.take(k),
                annotation: Some(f.skip(k + 1)),
                lisp_form: None,
            },
            None => CandidateView { word: f, annotation: None, lisp_form: None },
        }
    }
}

/// Adds the field `f` to the candidates read so far (`None` once a field
/// gave an empty word).
pub open spec fn finish_field(acc: Option<Seq<CandidateView>>, f: Seq<char>) -> Option<Seq<CandidateView>> {
    match acc {
        None => None,
        Some(cs) => if f.len() == 0 {
            Some(cs)
        } else if field_cand(f).word.len() == 0 {
            None
        } else {
            Some(cs.push(field_cand(f)))
        },
    }
}

/// Reading the candidate part: the candidates of the finished fields and the
/// field in progress.
pub open spec fn cands_acc(s: Seq<char>) -> (Option<Seq<CandidateView>>, Seq<char>)
    decreases s.len(),
{
    if s.len() == 0 {
        (Some(Seq::empty()), Seq::empty())
    } else {
        let (acc, cur) = cands_acc(s.drop_last());
        if s.last() == '/' {
            (finish_field(acc, cur), Seq::empty())
        } else {
            (acc, cur.push(s.last()))
        }
    }
}

/// The candidates of `s` (fields between `/`), `None` if one has an empty word.
pub open spec fn spec_parse_cands(s: Seq<char>) -> Option<Seq<CandidateView>> {
    finish_field(cands_acc(s).0, cands_acc(s).1)
}

/// What one line of a dictionary file holds.
pub enum DictLine {
    Skip,
    Bad,
    Entry(Seq<char>, Option<Seq<char>>, Seq<CandidateView>),
}

pub open spec fn spec_dict_line(raw: Seq<char>) -> DictLine {
    if raw.len() > 0 && raw[0] == ';' {
        DictLine::Skip
    } else {
        let line = trim_seq(raw);
        if line.len() == 0 {
            DictLine::Skip
        } else {
            match sep_from(line, 0) {
                None => DictLine::Bad,
                Some(p) => {
                    let (m, o) = split_okuri(line.take(p));
                    match spec_parse_cands(line.skip(p + 2)) {
                        Some(cs) => DictLine::Entry(m, o, cs),
                        None => DictLine::Bad,
                    }
                },
            }
        }
    }
}

/// The headwords of the first `n` lines, or the number of the first bad line.
pub open spec fn parse_dict_upto(lines: Seq<Seq<char>>, n: nat) -> Result<Seq<HeadwordView>, nat>
    decreases n,
{
    if n == 0 {
        Ok(Seq::empty())
    } else {
        match parse_dict_upto(lines, (n - 1) as nat) {
            Err(l) => Err(l),
            Ok(hs) => match spec_dict_line(lines[n - 1]) {
                DictLine::Skip => Ok(hs),
                DictLine::Bad => Err(n),
                DictLine::Entry(m, o, cs) => Ok(add_entry(hs, m, o, cs)),
            },
        }
    }
}

/// The headwords of a dictionary text, or the number of its first bad line.
pub open spec fn spec_parse_dict(src: Seq<char>) -> Result<Seq<HeadwordView>, nat> {
    parse_dict_upto(split_lines(src), split_lines(src).len())
}

// ── Lemmas ───────────────────────────────────────────────────────────────────

pub(crate) proof fn lemma_bucket_index(bs: Seq<BucketView>, okuri: Option<Seq<char>>)
    ensures
        match bucket_index(bs, okuri) {
            Some(i) => 0 <= i < bs.len() && bs[i].okuri == okuri
                && forall|j: int| 0 <= j < i ==> bs[j].okuri != okuri,
            None => forall|j: int| 0 <= j < bs.len() ==> bs[j].okuri != okuri,
        },
    decreases bs.len(),
{
    if bs.len() > 0 {
        let d = bs.drop_last();
        lemma_bucket_index(d, okuri);
        assert(forall|j: int| 0 <= j < d.len() ==> d[j] == bs[j]);
    }
}

pub(crate) proof fn lemma_head_index(hs: Seq<HeadwordView>, midashi: Seq<char>)
    ensures
        match head_index(hs, midashi) {
            Some(i) => 0 <= i < hs.len() && hs[i].midashi == midashi
                && forall|j: int| 0 <= j < i ==> hs[j].midashi != midashi,
            None => forall|j: int| 0 <= j < hs.len() ==> hs[j].midashi != midashi,
        },
    decreases hs.len(),
{
    if hs.len() > 0 {
        let d = hs.drop_last();
        lemma_head_index(d, midashi);
        assert(forall|j: int| 0 <= j < d.len() ==> d[j] == hs[j]);
    }
}

/// The first index found by a scan that stops at the first match.
pub(crate) proof fn lemma_bucket_index_is(bs: Seq<BucketView>, okuri: Option<Seq<char>>, i: int)
    requires
        0 <= i < bs.len(),
        bs[i].okuri == okuri,
        forall|j: int| 0 <= j < i ==> bs[j].okuri != okuri,
    ensures
        bucket_index(bs, okuri) == Some(i),
{
    lemma_bucket_index(bs, okuri);
}

pub(crate) proof fn lemma_head_index_is(hs: Seq<HeadwordView>, midashi: Seq<char>, i: int)
    requires
        0 <= i < hs.len(),
        hs[i].midashi == midashi,
        forall|j: int| 0 <= j < i ==> hs[j].midashi != midashi,
    ensures
        head_index(hs, midashi) == Some(i),
{
    lemma_head_index(hs, midashi);
}

proof fn lemma_add_entry_distinct(
    hs: Seq<HeadwordView>,
    m: Seq<char>,
    o: Option<Seq<char>>,
    cs: Seq<CandidateView>,
)
    requires
        heads_distinct(hs),
    ensures
        heads_distinct(add_entry(hs, m, o, cs)),
{
    lemma_head_index(hs, m);
    match head_index(hs, m) {
        Some(i) => {
            lemma_bucket_index(hs[i].buckets, o);
            let r = add_entry(hs, m, o, cs);
            assert forall|k: int| 0 <= k < r.len() implies buckets_distinct(#[trigger] r[k].buckets) by {
                if k != i {
                    assert(buckets_distinct(hs[k].buckets));
                } else {
                    assert(buckets_distinct(hs[i].buckets));
                }
            }
        },
        None => {
            let r = add_entry(hs, m, o, cs);
            assert forall|k: int| 0 <= k < r.len() implies buckets_distinct(#[trigger] r[k].buckets) by {
                if k < hs.len() {
                    assert(buckets_distinct(hs[k].buckets));
                }
            }
        },
    }
}

proof fn lemma_parse_dict_distinct(lines: Seq<Seq<char>>, n: nat)
    ensures
        parse_dict_upto(lines, n) matches Ok(hs) ==> heads_distinct(hs),
    decreases n,
{
    if n > 0 {
        lemma_parse_dict_distinct(lines, (n - 1) as nat);
        if let Ok(hs) = parse_dict_upto(lines, (n - 1) as nat) {
            if let DictLine::Entry(m, o, cs) = spec_dict_line(lines[n - 1]) {
                lemma_add_entry_distinct(hs, m, o, cs);
            }
        }
    }
}

// ── Parsing ──────────────────────────────────────────────────────────────────

/// Character-wise equality of optional strings.
pub(crate) fn opt_str_eq(a: &Option<String>, b: &Option<String>) -> (r: bool)
    ensures
        r == (opt_str(*a) == opt_str(*b)),
{
    match (a, b) {
        (Some(x), Some(y)) => str_eq(x.as_str(), y.as_str()),
        (None, None) => true,
        _ => false,
    }
}

/// Position of the first `" /"`.
fn find_sep(line: &Vec<char>) -> (r: Option<usize>)
    ensures
        match r {
            Some(p) => sep_from(line@, 0) == Some(p as int) && p + 1 < line.len(),
            None => sep_from(line@, 0) is None,
        },
{
    let mut p: usize = 0;
    while p < line.len() && line.len() - p > 1
        invariant
            p <= line.len(),
            sep_from(line@, 0) == sep_from(line@, p as int),
        decreases line.len() - p,
    {
        if line[p] == ' ' && line[p + 1] == '/' {
            return Some(p);
        }
        p += 1;
    }
    None
}

/// Position of the first `;`.
fn find_semi(f: &Vec<char>) -> (r: Option<usize>)
    ensures
        match r {
            Some(k) => semi_from(f@, 0) == Some(k as int) && k < f.len(),
            None => semi_from(f@, 0) is None,
        },
{
    let mut p: usize = 0;
    while p < f.len()
        invariant
            p <= f.len(),
            semi_from(f@, 0) == semi_from(f@, p as int),
        decreases f.len() - p,
    {
        if f[p] == ';' {
            return Some(p);
        }
        p += 1;
    }
    None
}

/// Elements `from..to` of `v`.
fn slice_chars(v: &Vec<char>, from: usize, to: usize) -> (r: Vec<char>)
    requires
        from <= to <= v.len(),
    ensures
        r@ == v@.subrange(from as int, to as int),
{
    let mut r: Vec<char> = Vec::new();
    let mut i: usize = from;
    while i < to
        invariant
            from <= i <= to <= v.len(),
            r@ == v@.subrange(from as int, i as int),
        decreases to - i,
    {
        r.push(v[i]);
        assert(v@.subrange(from as int, i + 1) =~= v@.subrange(from as int, i as int).push(v@[i as int]));
        i += 1;
    }
    r
}

/// Splits the okurigana consonant off a midashi.
pub fn split_midashi_okuri(raw: &Vec<char>) -> (r: (Vec<char>, Option<Vec<char>>))
    ensures
        r.0@ == split_okuri(raw@).0,
        match r.1 {
            Some(o) => split_okuri(raw@).1 == Some(o@),
            None => split_okuri(raw@).1 is None,
        },
{
    let n = raw.len();
    if n > 0 {
        let last = raw[n - 1];
        if ('a' <= last && last <= 'z') || ('A' <= last && last <= 'Z') {
            let mut k: usize = 0;
            let mut found = false;
            while k < n
                invariant
                    n == raw.len(),
                    k <= n,
                    found ==> exists|i: int| 0 <= i < raw@.len() && !spec_is_ascii(#[trigger] raw@[i]),
                    !found ==> forall|i: int| 0 <= i < k ==> spec_is_ascii(#[trigger] raw@[i]),
                decreases n - k,
            {
                if !found && !is_ascii(raw[k]) {
                    found = true;
                }
                k += 1;
            }
            if found {
                let m = slice_chars(raw, 0, n - 1);
                let mut o: Vec<char> = Vec::new();
                o.push(last);
                assert(m@ =~= raw@.drop_last());
                assert(o@ =~= seq![raw@.last()]);
                return (m, Some(o));
            }
        }
    }
    let m = slice_chars(raw, 0, n);
    assert(m@ =~= raw@);
    (m, None)
}

/// The candidate written in one non-empty field.
fn field_candidate(f: &Vec<char>) -> (r: Candidate)
    ensures
        r@ == field_cand(f@),
{
    if f.len() > 0 && f[0] == '(' {
        let raw = string_from_chars(f.as_slice());
        let form = match classify(raw.as_str()) {
            Some(l) => l,
            None => LispForm::Unknown,
        };
        return Candidate::lisp(raw.as_str(), form);
    }
    match find_semi(f) {
        Some(k) => {
            let w = slice_chars(f, 0, k);
            let a = slice_chars(f, k + 1, f.len());
            assert(w@ =~= f@.take(k as int));
            assert(a@ =~= f@.skip(k + 1));
            let ws = string_from_chars(w.as_slice());
            let as_ = string_from_chars(a.as_slice());
            Candidate::with_annotation(ws.as_str(), as_.as_str())
        },
        None => {
            let ws = string_from_chars(f.as_slice());
            Candidate::new(ws.as_str())
        },
    }
}

/// Adds one field to the candidates read so far; `false` on an empty word.
fn push_field(cands: &mut Vec<Candidate>, f: &Vec<char>) -> (ok: bool)
    ensures
        finish_field(Some(cands_view(old(cands)@)), f@) == (if ok {
            Some(cands_view(final(cands)@))
        } else {
            None::<Seq<CandidateView>>
        }),
{
    if f.len() == 0 {
        return true;
    }
    let c = field_candidate(f);
    if c.word.as_str().is_empty() {
        return false;
    }
    let ghost prev = cands@;
    cands.push(c);
    proof {
        assert(cands_view(cands@) =~= cands_view(prev).push(field_cand(f@)));
    }
    true
}

/// Parses the candidate part of an entry line.
pub fn parse_candidates(s: &Vec<char>) -> (r: Option<Vec<Candidate>>)
    ensures
        match r {
            Some(cs) => spec_parse_cands(s@) == Some(cands_view(cs@)),
            None => spec_parse_cands(s@) is None,
        },
{
    let mut cands: Vec<Candidate> = Vec::new();
    let mut cur: Vec<char> = Vec::new();
    let mut i: usize = 0;
    assert(s@.take(0) =~= Seq::<char>::empty());
    assert(cands_view(cands@) =~= Seq::<CandidateView>::empty());
    while i < s.len()
        invariant
            i <= s.len(),
            cands_acc(s@.take(i as int)) == (Some(cands_view(cands@)), cur@),
        decreases s.len() - i,
    {
        assert(s@.take(i + 1).drop_last() =~= s@.take(i as int));
        if s[i] == '/' {
            let ok = push_field(&mut cands, &cur);
            if !ok {
                proof {
                    lemma_cands_fail(s@, i + 1);
                }
                return None;
            }
            cur = Vec::new();
        } else {
            cur.push(s[i]);
        }
        i += 1;
    }
    assert(s@.take(s.len() as int) =~= s@);
    let ok = push_field(&mut cands, &cur);
    if ok {
        Some(cands)
    } else {
        None
    }
}

/// Once a field has failed, the whole candidate part fails.
proof fn lemma_cands_fail(s: Seq<char>, k: int)
    requires
        0 <= k <= s.len(),
        cands_acc(s.take(k)).0 is None,
    ensures
        spec_parse_cands(s) is None,
    decreases s.len() - k,
{
    if k == s.len() {
        assert(s.take(k) =~= s);
    } else {
        assert(s.take(k + 1).drop_last() =~= s.take(k));
        lemma_cands_fail(s, k + 1);
    }
}

/// View of an optional string slice.
pub open spec fn opt_ref(o: Option<&str>) -> Option<Seq<char>> {
    match o {
        Some(s) => Some(s@),
        None => None,
    }
}

/// Index of the headword `m` in `hs`.
fn find_head(hs: &Vec<Headword>, m: &str) -> (r: Option<usize>)
    ensures
        match r {
            Some(i) => head_index(headwords_view(hs@), m@) == Some(i as int),
            None => head_index(headwords_view(hs@), m@) is None,
        },
{
    let ghost v = headwords_view(hs@);
    let mut i: usize = 0;
    while i < hs.len()
        invariant
            i <= hs.len(),
            v == headwords_view(hs@),
            forall|j: int| 0 <= j < i ==> v[j].midashi != m@,
        decreases hs.len() - i,
    {
        if str_eq(hs[i].midashi.as_str(), m) {
            proof {
                lemma_head_index_is(v, m@, i as int);
            }
            return Some(i);
        }
        i += 1;
    }
    proof {
        lemma_head_index(v, m@);
    }
    None
}

/// Index of the bucket for `o` in `bs`.
fn find_bucket(bs: &Vec<OkuriBucket>, o: Option<&str>) -> (r: Option<usize>)
    ensures
        match r {
            Some(j) => bucket_index(buckets_view(bs@), opt_ref(o)) == Some(j as int),
            None => bucket_index(buckets_view(bs@), opt_ref(o)) is None,
        },
{
    let ghost v = buckets_view(bs@);
    let mut j: usize = 0;
    while j < bs.len()
        invariant
            j <= bs.len(),
            v == buckets_view(bs@),
            forall|k: int| 0 <= k < j ==> v[k].okuri != opt_ref(o),
        decreases bs.len() - j,
    {
        let same = match (&bs[j].okuri, o) {
            (Some(x), Some(y)) => str_eq(x.as_str(), y),
            (None, None) => true,
            _ => false,
        };
        if same {
            proof {
                lemma_bucket_index_is(v, opt_ref(o), j as int);
            }
            return Some(j);
        }
        j += 1;
    }
    proof {
        lemma_bucket_index(v, opt_ref(o));
    }
    None
}

/// Exec form of `add_entry`.
fn add_entry_exec(hs: &mut Vec<Headword>, m: String, o: Option<String>, cs: Vec<Candidate>)
    ensures
        headwords_view(final(hs)@) == add_entry(
            headwords_view(old(hs)@),
            m@,
            opt_str(o),
            cands_view(cs@),
        ),
{
    let ghost hv = headwords_view(hs@);
    let ghost ov = opt_str(o);
    let ghost cv = cands_view(cs@);
    let oref: Option<&str> = match &o {
        Some(x) => Some(x.as_str()),
        None => None,
    };
    assert(opt_ref(oref) == ov);
    proof {
        lemma_head_index(hv, m@);
    }
    match find_head(hs, m.as_str()) {
        Some(i) => {
            let mut h = hs.remove(i);
            let mut cs = cs;
            proof {
                lemma_bucket_index(hv[i as int].buckets, ov);
            }
            match find_bucket(&h.buckets, oref) {
                Some(j) => {
                    let mut b = h.buckets.remove(j);
                    let ghost bc = b.candidates@;
                    b.candidates.append(&mut cs);
                    assert(cands_view(b.candidates@) =~= cands_view(bc) + cv);
                    let ghost before = h.buckets@;
                    h.buckets.insert(j, b);
                    assert(buckets_view(h.buckets@) =~= add_to_buckets(hv[i as int].buckets, ov, cv));
                },
                None => {
                    let ghost before = h.buckets@;
                    h.buckets.push(OkuriBucket { okuri: o, candidates: cs });
                    assert(buckets_view(h.buckets@) =~= add_to_buckets(hv[i as int].buckets, ov, cv));
                },
            }
            hs.insert(i, h);
            assert(headwords_view(hs@) =~= add_entry(hv, m@, ov, cv));
        },
        None => {
            let mut bs: Vec<OkuriBucket> = Vec::new();
            bs.push(OkuriBucket { okuri: o, candidates: cs });
            assert(buckets_view(bs@) =~= seq![BucketView { okuri: ov, candidates: cv }]);
            hs.push(Headword { midashi: m, buckets: bs });
            assert(headwords_view(hs@) =~= add_entry(hv, m@, ov, cv));
        },
    }
}

/// Reads one line; `Err(())` for a malformed line.
fn parse_dict_line(raw: &Vec<char>) -> (r: Result<Option<(Vec<char>, Option<Vec<char>>, Vec<Candidate>)>, ()>)
    ensures
        match r {
            Ok(None) => spec_dict_line(raw@) is Skip,
            Ok(Some((m, o, cs))) => spec_dict_line(raw@) == DictLine::Entry(
                m@,
                match o {
                    Some(x) => Some(x@),
                    None => None,
                },
                cands_view(cs@),
            ),
            Err(()) => spec_dict_line(raw@) is Bad,
        },
{
    if raw.len() > 0 && raw[0] == ';' {
        return Ok(None);
    }
    let line = trim_chars(raw);
    if line.len() == 0 {
        return Ok(None);
    }
    match find_sep(&line) {
        None => Err(()),
        Some(p) => {
            let head = slice_chars(&line, 0, p);
            assert(head@ =~= line@.take(p as int));
            let rest = slice_chars(&line, p + 2, line.len());
            assert(rest@ =~= line@.skip(p + 2));
            let (m, o) = split_midashi_okuri(&head);
            match parse_candidates(&rest) {
                Some(cs) => Ok(Some((m, o, cs))),
                None => Err(()),
            }
        },
    }
}

/// Parses a whole dictionary text.
#[verifier::loop_isolation(false)]
pub fn parse_skk_dict(src: &str) -> (r: Result<Vec<Headword>, DictError>)
    ensures
        match r {
            Ok(hs) => spec_parse_dict(src@) == Ok::<Seq<HeadwordView>, nat>(headwords_view(hs@)),
            Err(DictError::Parse { line, .. }) => spec_parse_dict(src@) == Err::<Seq<HeadwordView>, nat>(line as nat),
            Err(_) => false,
        },
{
    let cs = chars_of(src);
    let lines = split_lines_exec(&cs);
    let ghost ls = split_lines(src@);
    let mut hs: Vec<Headword> = Vec::new();
    let mut i: usize = 0;
    assert(headwords_view(hs@) =~= Seq::<HeadwordView>::empty());
    while i < lines.len()
        invariant
            i <= lines.len(),
            lines_view(lines@) == ls,
            parse_dict_upto(ls, i as nat) == Ok::<Seq<HeadwordView>, nat>(headwords_view(hs@)),
        decreases lines.len() - i,
    {
        assert(lines@[i as int]@ == ls[i as int]);
        match parse_dict_line(&lines[i]) {
            Ok(None) => {},
            Ok(Some((m, o, cands))) => {
                let ms = string_from_chars(m.as_slice());
                let os = match o {
                    Some(x) => Some(string_from_chars(x.as_slice())),
                    None => None,
                };
                add_entry_exec(&mut hs, ms, os, cands);
            },
            Err(()) => {
                proof {
                    assert(parse_dict_upto(ls, (i + 1) as nat) == Err::<Seq<HeadwordView>, nat>((i + 1) as nat));
                    assert(lines_view(lines@).len() == lines.len());
                    lemma_parse_err_stays(ls, (i + 1) as nat, ls.len());
                }
                return Err(DictError::Parse { line: i + 1, message: String::from_str("malformed dictionary line") });
            },
        }
        i += 1;
    }
    assert(lines_view(lines@).len() == lines.len());
    Ok(hs)
}

/// An error at line `n` is the result of every longer prefix.
proof fn lemma_parse_err_stays(lines: Seq<Seq<char>>, n: nat, m: nat)
    requires
        n <= m,
        parse_dict_upto(lines, n) is Err,
    ensures
        parse_dict_upto(lines, m) == parse_dict_upto(lines, n),
    decreases m - n,
{
    if m > n {
        lemma_parse_err_stays(lines, n, (m - 1) as nat);
    }
}

/// The entry for `(midashi, okuri)` in `hs`.
fn lookup_exec(hs: &Vec<Headword>, midashi: &str, okuri: Option<&str>) -> (r: Option<DictEntry>)
    ensures
        match r {
            Some(e) => lookup_in(headwords_view(hs@), midashi@, opt_ref(okuri)) == Some(e@),
            None => lookup_in(headwords_view(hs@), midashi@, opt_ref(okuri)) is None,
        },
{
    proof {
        lemma_head_index(headwords_view(hs@), midashi@);
    }
    match find_head(hs, midashi) {
        None => None,
        Some(i) => {
            let h = &hs[i];
            proof {
                lemma_bucket_index(headwords_view(hs@)[i as int].buckets, opt_ref(okuri));
            }
            match find_bucket(&h.buckets, okuri) {
                None => None,
                Some(j) => {
                    let b = &h.buckets[j];
                    let candidates = clone_candidates(b.candidates.as_slice());
                    let okuri_s = match okuri {
                        Some(x) => Some(x.to_owned()),
                        None => None,
                    };
                    Some(DictEntry { midashi: midashi.to_owned(), okuri: okuri_s, candidates })
                },
            }
        },
    }
}

// ── Completion ───────────────────────────────────────────────────────────────

/// Strictly increasing in `str` order.
pub open spec fn sorted_strict(s: Seq<Seq<char>>) -> bool {
    forall|i: int, j: int| 0 <= i < j < s.len() ==> lex_lt(#[trigger] s[i], #[trigger] s[j])
}

/// An okuri-nashi headword that extends `prefix` (and is not `prefix` itself).
pub open spec fn completes(h: HeadwordView, prefix: Seq<char>) -> bool {
    &&& is_prefix(prefix, h.midashi)
    &&& h.midashi != prefix
    &&& bucket_index(h.buckets, None) is Some
}

/// Inserts `x` into a strictly sorted list that does not hold it.
fn insert_sorted(r: &mut Vec<String>, x: String)
    requires
        sorted_strict(strs_view(old(r)@)),
        !strs_view(old(r)@).contains(x@),
    ensures
        sorted_strict(strs_view(final(r)@)),
        forall|y: Seq<char>| strs_view(final(r)@).contains(y) <==> (strs_view(old(r)@).contains(y) || y == x@),
{
    let ghost o = strs_view(r@);
    let mut q: usize = 0;
    while q < r.len() && lex_less(r[q].as_str(), x.as_str())
        invariant
            q <= r.len(),
            o == strs_view(r@),
            forall|k: int| 0 <= k < q ==> lex_lt(#[trigger] o[k], x@),
        decreases r.len() - q,
    {
        q += 1;
    }
    proof {
        if q < o.len() {
            assert(o[q as int] != x@) by {
                assert(o.contains(o[q as int]));
            }
            lemma_lex_total(o[q as int], x@);
        }
    }
    let ghost xv = x@;
    r.insert(q, x);
    let ghost n = strs_view(r@);
    proof {
        assert(n =~= o.insert(q as int, xv));
        assert forall|i: int, j: int| 0 <= i < j < n.len() implies lex_lt(#[trigger] n[i], #[trigger] n[j]) by {
            if j < q {
                assert(lex_lt(o[i], o[j]));
            } else if j == q {
                assert(lex_lt(o[i], xv));
            } else if i < q {
                assert(n[j] == o[j - 1]);
                assert(lex_lt(o[i], o[j - 1]));
            } else if i == q {
                assert(n[j] == o[j - 1]);
                if j - 1 > q {
                    assert(lex_lt(o[q as int], o[j - 1]));
                    lemma_lex_transitive(xv, o[q as int], o[j - 1]);
                }
            } else {
                assert(lex_lt(o[i - 1], o[j - 1]));
            }
        }
        assert forall|y: Seq<char>| n.contains(y) implies (o.contains(y) || y == xv) by {
            let k = choose|k: int| 0 <= k < n.len() && n[k] == y;
            if k < q {
                assert(o[k] == y);
            } else if k > q {
                assert(o[k - 1] == y);
            }
        }
        assert forall|y: Seq<char>| (o.contains(y) || y == xv) implies n.contains(y) by {
            if y == xv {
                assert(n[q as int] == y);
            } else {
                let k = choose|k: int| 0 <= k < o.len() && o[k] == y;
                if k < q {
                    assert(n[k] == y);
                } else {
                    assert(n[k + 1] == y);
                }
            }
        }
    }
}

/// Completions of `prefix` among `hs`, in `str` order.
fn complete_sorted(hs: &Vec<Headword>, prefix: &str) -> (r: Vec<String>)
    requires
        heads_distinct(headwords_view(hs@)),
    ensures
        sorted_strict(strs_view(r@)),
        forall|y: Seq<char>| strs_view(r@).contains(y) <==> exists|i: int|
            0 <= i < headwords_view(hs@).len() && completes(headwords_view(hs@)[i], prefix@)
                && #[trigger] headwords_view(hs@)[i].midashi == y,
{
    let ghost v = headwords_view(hs@);
    let pv = chars_of(prefix);
    let mut r: Vec<String> = Vec::new();
    let mut i: usize = 0;
    while i < hs.len()
        invariant
            i <= hs.len(),
            v == headwords_view(hs@),
            heads_distinct(v),
            pv@ == prefix@,
            sorted_strict(strs_view(r@)),
            forall|y: Seq<char>| strs_view(r@).contains(y) <==> exists|k: int|
                0 <= k < i && completes(v[k], prefix@) && #[trigger] v[k].midashi == y,
        decreases hs.len() - i,
    {
        let h = &hs[i];
        let mv = chars_of(h.midashi.as_str());
        let eligible = starts_with_chars(mv.as_slice(), pv.as_slice())
            && !str_eq(h.midashi.as_str(), prefix)
            && find_bucket(&h.buckets, None).is_some();
        proof {
            assert(opt_ref(None) == None::<Seq<char>>);
        }
        if eligible {
            proof {
                assert(!strs_view(r@).contains(v[i as int].midashi)) by {
                    if strs_view(r@).contains(v[i as int].midashi) {
                        let k = choose|k: int| 0 <= k < i && completes(v[k], prefix@) && #[trigger] v[k].midashi == v[i as int].midashi;
                    }
                }
            }
            let ghost before = strs_view(r@);
            insert_sorted(&mut r, h.midashi.clone());
            proof {
                assert forall|y: Seq<char>| strs_view(r@).contains(y) <==> exists|k: int|
                    0 <= k < i + 1 && completes(v[k], prefix@) && #[trigger] v[k].midashi == y by {
                    if y == v[i as int].midashi {
                        assert(completes(v[i as int], prefix@));
                    }
                }
            }
        } else {
            proof {
                assert forall|y: Seq<char>| strs_view(r@).contains(y) <==> exists|k: int|
                    0 <= k < i + 1 && completes(v[k], prefix@) && #[trigger] v[k].midashi == y by {
                    if exists|k: int| 0 <= k < i + 1 && completes(v[k], prefix@) && #[trigger] v[k].midashi == y {
                        let k = choose|k: int| 0 <= k < i + 1 && completes(v[k], prefix@) && #[trigger] v[k].midashi == y;
                        assert(k != i);
                    }
                }
            }
        }
        i += 1;
    }
    r
}

// ── FileDict (read-only) ──────────────────────────────────────────────────────

/// SKK dictionary loaded from a file (read-only).
pub struct FileDict {
    path: String,
    /// Headwords in order of first appearance.
    entries: Vec<Headword>,
    priority: i32,
}

impl FileDict {
    /// The headwords of the dictionary.
    pub closed spec fn spec_entries(&self) -> Seq<HeadwordView> {
        headwords_view(self.entries@)
    }

    pub closed spec fn spec_path(&self) -> Seq<char> {
        self.path@
    }

    pub closed spec fn spec_priority(&self) -> i32 {
        self.priority
    }

    #[verifier::type_invariant]
    spec fn wf(&self) -> bool {
        heads_distinct(headwords_view(self.entries@))
    }

    /// Builds the dictionary from the text of the file at `path` (already
    /// decoded to UTF-8).
    pub fn load(path: &str, src: &str, priority: i32) -> (r: Result<Self, DictError>)
        ensures
            match r {
                Ok(d) => spec_parse_dict(src@) == Ok::<Seq<HeadwordView>, nat>(d.spec_entries())
                    && d.spec_path() == path@ && d.spec_priority() == priority,
                Err(DictError::Parse { line, .. }) => spec_parse_dict(src@) == Err::<Seq<HeadwordView>, nat>(line as nat),
                Err(_) => false,
            },
    {
        let entries = parse_skk_dict(src)?;
        proof {
            let ls = split_lines(src@);
            lemma_parse_dict_distinct(ls, ls.len());
        }
        Ok(FileDict { path: path.to_owned(), entries, priority })
    }

    pub fn path(&self) -> (r: &str)
        ensures
            r@ == self.spec_path(),
    {
        self.path.as_str()
    }
}

impl DictionaryProvider for FileDict {
    fn lookup(&self, midashi: &str, okuri: Option<&str>) -> (r: Option<DictEntry>)
        ensures
            match r {
                Some(e) => lookup_in(self.spec_entries(), midashi@, opt_ref(okuri)) == Some(e@),
                None => lookup_in(self.spec_entries(), midashi@, opt_ref(okuri)) is None,
            },
    {
        lookup_exec(&self.entries, midashi, okuri)
    }

    fn learn(&mut self, _entry: DictEntry) -> (r: Result<(), DictError>)
        ensures
            r matches Err(DictError::ReadOnly),
            final(self).spec_entries() == old(self).spec_entries(),
    {
        Err(DictError::ReadOnly)
    }

    fn priority(&self) -> (r: i32)
        ensures
            r == self.spec_priority(),
    {
        self.priority
    }

    /// Returns all okuri-nashi headwords starting with `prefix` (excluding
    /// `prefix` itself) in sorted order.
    fn complete(&self, prefix: &str) -> (r: Vec<String>)
        ensures
            sorted_strict(strs_view(r@)),
            forall|y: Seq<char>| strs_view(r@).contains(y) <==> exists|i: int|
                0 <= i < self.spec_entries().len() && completes(self.spec_entries()[i], prefix@)
                    && #[trigger] self.spec_entries()[i].midashi == y,
    {
        proof {
            use_type_invariant(self);
        }
        let r = complete_sorted(&self.entries, prefix);
        assert(self.spec_entries() == headwords_view(self.entries@));
        r
    }
}

// ── The ordered map of the user dictionary ───────────────────────────────────

#[verifier::external_type_specification]
#[verifier::external_body]
#[verifier::reject_recursive_types(K)]
#[verifier::reject_recursive_types(V)]
#[verifier::reject_recursive_types(S)]
pub struct ExIndexMap<K, V, S>(IndexMap<K, V, S>);

/// What an `IndexMap` of the user dictionary holds: its keys and values in
/// insertion order.
pub uninterp spec fn user_map_entries(m: IndexMap<String, Vec<OkuriBucket>>) -> Seq<(Seq<char>, Seq<BucketView>)>;

/// Position of `key` among the entries.
pub open spec fn key_index(es: Seq<(Seq<char>, Seq<BucketView>)>, key: Seq<char>) -> Option<int>
    decreases es.len(),
{
    if es.len() == 0 {
        None
    } else {
        match key_index(es.drop_last(), key) {
            Some(i) => Some(i),
            None => if es.last().0 == key {
                Some(es.len() - 1)
            } else {
                None
            },
        }
    }
}

/// `IndexMap::new`: an empty map.
#[verifier::external_body]
fn map_new() -> (m: IndexMap<String, Vec<OkuriBucket>>)
    ensures
        user_map_entries(m) == Seq::<(Seq<char>, Seq<BucketView>)>::empty(),
{
    IndexMap::new()
}

/// `IndexMap::len`: the number of entries.
#[verifier::external_body]
fn map_len(m: &IndexMap<String, Vec<OkuriBucket>>) -> (n: usize)
    ensures
        n == user_map_entries(*m).len(),
{
    m.len()
}

/// `IndexMap::get_index`: the entry at position `i`.
#[verifier::external_body]
fn map_get_index(m: &IndexMap<String, Vec<OkuriBucket>>, i: usize) -> (r: Option<(&String, &Vec<OkuriBucket>)>)
    ensures
        r is Some <==> i < user_map_entries(*m).len(),
        r matches Some((k, v)) ==> k@ == user_map_entries(*m)[i as int].0
            && buckets_view(v@) == user_map_entries(*m)[i as int].1,
{
    m.get_index(i)
}

/// `IndexMap::get_index_of`: the position of `key`.
#[verifier::external_body]
fn map_index_of(m: &IndexMap<String, Vec<OkuriBucket>>, key: &str) -> (r: Option<usize>)
    ensures
        match r {
            Some(i) => key_index(user_map_entries(*m), key@) == Some(i as int),
            None => key_index(user_map_entries(*m), key@) is None,
        },
{
    m.get_index_of(key)
}

/// `IndexMap::insert`: a present key keeps its position and gets the new
/// value; a new key goes last.
#[verifier::external_body]
fn map_insert(m: &mut IndexMap<String, Vec<OkuriBucket>>, key: String, v: Vec<OkuriBucket>)
    ensures
        match key_index(user_map_entries(*old(m)), key@) {
            Some(i) => user_map_entries(*final(m)) == user_map_entries(*old(m)).update(i, (key@, buckets_view(v@))),
            None => user_map_entries(*final(m)) == user_map_entries(*old(m)).push((key@, buckets_view(v@))),
        },
{
    m.insert(key, v);
}

/// `IndexMap::shift_remove`: removes `key`, keeping the order of the rest.
#[verifier::external_body]
fn map_shift_remove(m: &mut IndexMap<String, Vec<OkuriBucket>>, key: &str) -> (r: Option<Vec<OkuriBucket>>)
    ensures
        match key_index(user_map_entries(*old(m)), key@) {
            Some(i) => user_map_entries(*final(m)) == user_map_entries(*old(m)).remove(i)
                && (r matches Some(v) && buckets_view(v@) == user_map_entries(*old(m))[i].1),
            None => user_map_entries(*final(m)) == user_map_entries(*old(m)) && r is None,
        },
{
    m.shift_remove(key)
}

/// Headwords of the map's entries.
pub open spec fn heads_of(es: Seq<(Seq<char>, Seq<BucketView>)>) -> Seq<HeadwordView> {
    es.map_values(|e: (Seq<char>, Seq<BucketView>)| HeadwordView { midashi: e.0, buckets: e.1 })
}

pub(crate) proof fn lemma_key_index_heads(es: Seq<(Seq<char>, Seq<BucketView>)>, key: Seq<char>)
    ensures
        key_index(es, key) == head_index(heads_of(es), key),
    decreases es.len(),
{
    if es.len() > 0 {
        lemma_key_index_heads(es.drop_last(), key);
        assert(heads_of(es.drop_last()) =~= heads_of(es).drop_last());
    }
}

// ── Learning ─────────────────────────────────────────────────────────────────

/// `l` without the candidates whose word is `w`.
pub open spec fn remove_word(l: Seq<CandidateView>, w: Seq<char>) -> Seq<CandidateView>
    decreases l.len(),
{
    if l.len() == 0 {
        Seq::empty()
    } else {
        remove_word(l.drop_last(), w) + (if l.last().word == w {
            Seq::empty()
        } else {
            seq![l.last()]
        })
    }
}

/// `cs` moved to the front of `l` in their order, each replacing any
/// candidate with the same word.
pub open spec fn promote(l: Seq<CandidateView>, cs: Seq<CandidateView>) -> Seq<CandidateView>
    decreases cs.len(),
{
    if cs.len() == 0 {
        l
    } else {
        seq![cs[0]] + remove_word(promote(l, cs.drop_first()), cs[0].word)
    }
}

/// The words of the plain (non-Lisp) candidates.
pub open spec fn plain_words(cs: Seq<CandidateView>) -> Seq<Seq<char>>
    decreases cs.len(),
{
    if cs.len() == 0 {
        Seq::empty()
    } else {
        plain_words(cs.drop_last()) + (if cs.last().lisp_form is None {
            seq![cs.last().word]
        } else {
            Seq::empty()
        })
    }
}

/// The words of `ws` that are not in `learned`.
pub open spec fn keep_unlearned(ws: Seq<Seq<char>>, learned: Seq<Seq<char>>) -> Seq<Seq<char>>
    decreases ws.len(),
{
    if ws.len() == 0 {
        Seq::empty()
    } else {
        keep_unlearned(ws.drop_last(), learned) + (if learned.contains(ws.last()) {
            Seq::empty()
        } else {
            seq![ws.last()]
        })
    }
}

/// One candidate after the learned words left its ignore directive: `None`
/// when the directive became empty.
pub open spec fn strip_one(c: CandidateView, learned: Seq<Seq<char>>) -> Seq<CandidateView> {
    match c.lisp_form {
        Some(LispFormView::IgnoreDicWord(ws)) => {
            let kept = keep_unlearned(ws, learned);
            if kept.len() == 0 {
                Seq::empty()
            } else {
                seq![CandidateView {
                    word: spec_render(kept),
                    annotation: c.annotation,
                    lisp_form: Some(LispFormView::IgnoreDicWord(kept)),
                }]
            }
        },
        _ => seq![c],
    }
}

/// Learned words removed from every ignore directive; emptied directives dropped.
pub open spec fn strip_learned(l: Seq<CandidateView>, learned: Seq<Seq<char>>) -> Seq<CandidateView>
    decreases l.len(),
{
    if l.len() == 0 {
        Seq::empty()
    } else {
        strip_learned(l.drop_last(), learned) + strip_one(l.last(), learned)
    }
}

/// A bucket list after learning `cs` under `okuri`.
pub open spec fn learn_buckets(bs: Seq<BucketView>, okuri: Option<Seq<char>>, cs: Seq<CandidateView>) -> Seq<BucketView> {
    let learned = plain_words(cs);
    match bucket_index(bs, okuri) {
        Some(j) => bs.update(j, BucketView { okuri, candidates: strip_learned(promote(bs[j].candidates, cs), learned) }),
        None => bs.push(BucketView { okuri, candidates: strip_learned(promote(Seq::empty(), cs), learned) }),
    }
}

/// The user dictionary's entries after learning `e`: the headword moves to
/// the most recent (last) position.
pub open spec fn learn_entries(es: Seq<(Seq<char>, Seq<BucketView>)>, e: EntryView) -> Seq<(Seq<char>, Seq<BucketView>)> {
    match key_index(es, e.midashi) {
        Some(i) => es.remove(i).push((e.midashi, learn_buckets(es[i].1, e.okuri, e.candidates))),
        None => es.push((e.midashi, learn_buckets(Seq::empty(), e.okuri, e.candidates))),
    }
}

proof fn lemma_remove_word_keeps(l: Seq<CandidateView>, w: Seq<char>)
    ensures
        forall|k: int| 0 <= k < remove_word(l, w).len() ==> #[trigger] remove_word(l, w)[k].word != w,
    decreases l.len(),
{
    if l.len() > 0 {
        lemma_remove_word_keeps(l.drop_last(), w);
    }
}

proof fn lemma_strip_keeps_plain_first(l: Seq<CandidateView>, learned: Seq<Seq<char>>)
    requires
        l.len() > 0,
        l[0].lisp_form is None,
    ensures
        strip_learned(l, learned).len() > 0,
        strip_learned(l, learned)[0] == l[0],
    decreases l.len(),
{
    if l.len() == 1 {
        assert(l.drop_last() =~= Seq::<CandidateView>::empty());
        assert(strip_learned(l.drop_last(), learned) =~= Seq::<CandidateView>::empty());
        assert(l.last() == l[0]);
        assert(strip_one(l[0], learned) =~= seq![l[0]]);
        assert(strip_learned(l, learned) =~= seq![l[0]]);
    } else {
        let d = l.drop_last();
        assert(d[0] == l[0]);
        lemma_strip_keeps_plain_first(d, learned);
        let a = strip_learned(d, learned);
        let b = strip_one(l.last(), learned);
        assert((a + b)[0] == a[0]);
    }
}

fn remove_word_exec(l: &Vec<Candidate>, w: &str) -> (r: Vec<Candidate>)
    ensures
        cands_view(r@) == remove_word(cands_view(l@), w@),
{
    let ghost lv = cands_view(l@);
    let mut out: Vec<Candidate> = Vec::new();
    let mut k: usize = 0;
    while k < l.len()
        invariant
            k <= l.len(),
            lv == cands_view(l@),
            cands_view(out@) == remove_word(lv.take(k as int), w@),
        decreases l.len() - k,
    {
        assert(lv.take(k + 1).drop_last() =~= lv.take(k as int));
        assert(lv.take(k + 1).last() == lv[k as int]);
        let ghost o0 = out@;
        if !str_eq(l[k].word.as_str(), w) {
            out.push(l[k].clone());
            assert(cands_view(out@) =~= cands_view(o0).push(lv[k as int]));
        } else {
            assert(remove_word(lv.take(k + 1), w@) =~= remove_word(lv.take(k as int), w@));
        }
        k += 1;
    }
    assert(lv.take(l.len() as int) =~= lv);
    out
}

/// Exec form of `promote`.
fn promote_exec(l: Vec<Candidate>, cs: &Vec<Candidate>) -> (r: Vec<Candidate>)
    ensures
        cands_view(r@) == promote(cands_view(l@), cands_view(cs@)),
{
    let ghost lv = cands_view(l@);
    let ghost cv = cands_view(cs@);
    let mut list = l;
    let mut i: usize = cs.len();
    assert(cv.skip(cs.len() as int) =~= Seq::<CandidateView>::empty());
    while i > 0
        invariant
            i <= cs.len(),
            cv == cands_view(cs@),
            cands_view(list@) == promote(lv, cv.skip(i as int)),
        decreases i,
    {
        let c = &cs[i - 1];
        let rest = remove_word_exec(&list, c.word.as_str());
        let mut front: Vec<Candidate> = Vec::new();
        front.push(c.clone());
        let ghost f0 = front@;
        let mut rest2 = rest;
        let ghost rv = cands_view(rest2@);
        front.append(&mut rest2);
        proof {
            let t = cv.skip(i - 1);
            assert(t.drop_first() =~= cv.skip(i as int));
            assert(t[0] == cv[i - 1]);
            assert(cands_view(front@) =~= seq![cv[i - 1]] + rv);
        }
        list = front;
        i -= 1;
    }
    assert(cv.skip(0) =~= cv);
    list
}

/// Exec form of `plain_words`.
fn plain_words_exec(cs: &Vec<Candidate>) -> (r: Vec<String>)
    ensures
        strs_view(r@) == plain_words(cands_view(cs@)),
{
    let ghost cv = cands_view(cs@);
    let mut r: Vec<String> = Vec::new();
    let mut i: usize = 0;
    while i < cs.len()
        invariant
            i <= cs.len(),
            cv == cands_view(cs@),
            strs_view(r@) == plain_words(cv.take(i as int)),
        decreases cs.len() - i,
    {
        assert(cv.take(i + 1).drop_last() =~= cv.take(i as int));
        if cs[i].lisp_form.is_none() {
            let ghost r0 = r@;
            r.push(cs[i].word.clone());
            assert(strs_view(r@) =~= strs_view(r0).push(cv[i as int].word));
        } else {
            assert(plain_words(cv.take(i + 1)) =~= plain_words(cv.take(i as int)));
        }
        i += 1;
    }
    assert(cv.take(cs.len() as int) =~= cv);
    r
}

/// Whether `w` is one of `ws`.
pub fn contains_str_pub(ws: &Vec<String>, w: &str) -> (r: bool)
    ensures
        r == strs_view(ws@).contains(w@),
{
    contains_str(ws, w)
}

/// Whether `w` is one of `ws`.
fn contains_str(ws: &Vec<String>, w: &str) -> (r: bool)
    ensures
        r == strs_view(ws@).contains(w@),
{
    let mut i: usize = 0;
    while i < ws.len()
        invariant
            i <= ws.len(),
            forall|k: int| 0 <= k < i ==> strs_view(ws@)[k] != w@,
        decreases ws.len() - i,
    {
        if str_eq(ws[i].as_str(), w) {
            assert(strs_view(ws@)[i as int] == w@);
            return true;
        }
        i += 1;
    }
    false
}

/// Exec form of `keep_unlearned`.
fn keep_unlearned_exec(ws: &Vec<String>, learned: &Vec<String>) -> (r: Vec<String>)
    ensures
        strs_view(r@) == keep_unlearned(strs_view(ws@), strs_view(learned@)),
{
    let ghost wv = strs_view(ws@);
    let ghost lv = strs_view(learned@);
    let mut r: Vec<String> = Vec::new();
    let mut i: usize = 0;
    while i < ws.len()
        invariant
            i <= ws.len(),
            wv == strs_view(ws@),
            lv == strs_view(learned@),
            strs_view(r@) == keep_unlearned(wv.take(i as int), lv),
        decreases ws.len() - i,
    {
        assert(wv.take(i + 1).drop_last() =~= wv.take(i as int));
        if !contains_str(learned, ws[i].as_str()) {
            let ghost r0 = r@;
            r.push(ws[i].clone());
            assert(strs_view(r@) =~= strs_view(r0).push(wv[i as int]));
        } else {
            assert(keep_unlearned(wv.take(i + 1), lv) =~= keep_unlearned(wv.take(i as int), lv));
        }
        i += 1;
    }
    assert(wv.take(ws.len() as int) =~= wv);
    r
}

/// Exec form of `strip_learned`.
fn strip_learned_exec(l: &Vec<Candidate>, learned: &Vec<String>) -> (r: Vec<Candidate>)
    ensures
        cands_view(r@) == strip_learned(cands_view(l@), strs_view(learned@)),
{
    let ghost cv = cands_view(l@);
    let ghost lw = strs_view(learned@);
    let mut r: Vec<Candidate> = Vec::new();
    let mut i: usize = 0;
    while i < l.len()
        invariant
            i <= l.len(),
            cv == cands_view(l@),
            lw == strs_view(learned@),
            cands_view(r@) == strip_learned(cv.take(i as int), lw),
        decreases l.len() - i,
    {
        assert(cv.take(i + 1).drop_last() =~= cv.take(i as int));
        assert(cv.take(i + 1).last() == cv[i as int]);
        let c = &l[i];
        let ghost r0 = r@;
        match &c.lisp_form {
            Some(LispForm::IgnoreDicWord(ws)) => {
                let kept = keep_unlearned_exec(ws, learned);
                if kept.len() > 0 {
                    let word = render_ignore_dic_word(kept.as_slice());
                    r.push(Candidate {
                        word,
                        annotation: clone_opt_str(&c.annotation),
                        lisp_form: Some(LispForm::IgnoreDicWord(kept)),
                    });
                    assert(cands_view(r@) =~= cands_view(r0) + strip_one(cv[i as int], lw));
                } else {
                    assert(strip_one(cv[i as int], lw) =~= Seq::<CandidateView>::empty());
                    assert(cands_view(r@) =~= cands_view(r0) + strip_one(cv[i as int], lw));
                }
            },
            _ => {
                r.push(c.clone());
                assert(cands_view(r@) =~= cands_view(r0) + strip_one(cv[i as int], lw));
            },
        }
        i += 1;
    }
    assert(cv.take(l.len() as int) =~= cv);
    r
}

/// Copies a list of buckets.
fn clone_buckets(bs: &Vec<OkuriBucket>) -> (r: Vec<OkuriBucket>)
    ensures
        buckets_view(r@) == buckets_view(bs@),
{
    let ghost bv = buckets_view(bs@);
    let mut r: Vec<OkuriBucket> = Vec::new();
    let mut i: usize = 0;
    while i < bs.len()
        invariant
            i <= bs.len(),
            bv == buckets_view(bs@),
            buckets_view(r@) == bv.take(i as int),
        decreases bs.len() - i,
    {
        let ghost r0 = r@;
        let b = OkuriBucket {
            okuri: clone_opt_str(&bs[i].okuri),
            candidates: clone_candidates(bs[i].candidates.as_slice()),
        };
        assert(b@ == bv[i as int]);
        r.push(b);
        assert(buckets_view(r@) =~= buckets_view(r0).push(bv[i as int]));
        assert(bv.take(i + 1) =~= bv.take(i as int).push(bv[i as int]));
        i += 1;
    }
    assert(bv.take(bs.len() as int) =~= bv);
    r
}

/// Exec form of `learn_buckets`.
fn learn_buckets_exec(bs: Vec<OkuriBucket>, okuri: Option<String>, cs: &Vec<Candidate>) -> (r: Vec<OkuriBucket>)
    ensures
        buckets_view(r@) == learn_buckets(buckets_view(bs@), opt_str(okuri), cands_view(cs@)),
{
    let ghost bv = buckets_view(bs@);
    let ghost ov = opt_str(okuri);
    let learned = plain_words_exec(cs);
    let oref: Option<&str> = match &okuri {
        Some(x) => Some(x.as_str()),
        None => None,
    };
    assert(opt_ref(oref) == ov);
    proof {
        lemma_bucket_index(bv, ov);
    }
    let mut bs = bs;
    match find_bucket(&bs, oref) {
        Some(j) => {
            let b = bs.remove(j);
            let promoted = promote_exec(b.candidates, cs);
            let stripped = strip_learned_exec(&promoted, &learned);
            bs.insert(j, OkuriBucket { okuri, candidates: stripped });
            assert(buckets_view(bs@) =~= learn_buckets(bv, ov, cands_view(cs@)));
        },
        None => {
            let empty: Vec<Candidate> = Vec::new();
            assert(cands_view(empty@) =~= Seq::<CandidateView>::empty());
            let promoted = promote_exec(empty, cs);
            let stripped = strip_learned_exec(&promoted, &learned);
            bs.push(OkuriBucket { okuri, candidates: stripped });
            assert(buckets_view(bs@) =~= learn_buckets(bv, ov, cands_view(cs@)));
        },
    }
    bs
}

proof fn lemma_learn_buckets_distinct(bs: Seq<BucketView>, o: Option<Seq<char>>, cs: Seq<CandidateView>)
    requires
        buckets_distinct(bs),
    ensures
        buckets_distinct(learn_buckets(bs, o, cs)),
{
    lemma_bucket_index(bs, o);
}

/// Distinct keys and distinct okurigana keys in every entry.
pub open spec fn entries_wf(es: Seq<(Seq<char>, Seq<BucketView>)>) -> bool {
    &&& forall|i: int, j: int| 0 <= i < j < es.len() ==> es[i].0 != es[j].0
    &&& forall|i: int| 0 <= i < es.len() ==> buckets_distinct(#[trigger] es[i].1)
}

pub(crate) proof fn lemma_key_index(es: Seq<(Seq<char>, Seq<BucketView>)>, key: Seq<char>)
    ensures
        match key_index(es, key) {
            Some(i) => 0 <= i < es.len() && es[i].0 == key
                && forall|j: int| 0 <= j < i ==> es[j].0 != key,
            None => forall|j: int| 0 <= j < es.len() ==> es[j].0 != key,
        },
    decreases es.len(),
{
    if es.len() > 0 {
        let d = es.drop_last();
        lemma_key_index(d, key);
        assert(forall|j: int| 0 <= j < d.len() ==> d[j] == es[j]);
    }
}

proof fn lemma_learn_entries_wf(es: Seq<(Seq<char>, Seq<BucketView>)>, e: EntryView)
    requires
        entries_wf(es),
    ensures
        entries_wf(learn_entries(es, e)),
{
    lemma_key_index(es, e.midashi);
    match key_index(es, e.midashi) {
        Some(i) => {
            lemma_learn_buckets_distinct(es[i].1, e.okuri, e.candidates);
            let r = learn_entries(es, e);
            let d = es.remove(i);
            assert forall|a: int, b: int| 0 <= a < b < r.len() implies r[a].0 != r[b].0 by {
                if b < r.len() - 1 {
                    let a0 = if a < i { a } else { a + 1 };
                    let b0 = if b < i { b } else { b + 1 };
                    assert(d[a] == es[a0] && d[b] == es[b0]);
                } else {
                    let a0 = if a < i { a } else { a + 1 };
                    assert(d[a] == es[a0]);
                }
            }
            assert forall|k: int| 0 <= k < r.len() implies buckets_distinct(#[trigger] r[k].1) by {
                if k < r.len() - 1 {
                    let k0 = if k < i { k } else { k + 1 };
                    assert(d[k] == es[k0]);
                    assert(buckets_distinct(es[k0].1));
                }
            }
        },
        None => {
            lemma_learn_buckets_distinct(Seq::empty(), e.okuri, e.candidates);
            let r = learn_entries(es, e);
            assert forall|k: int| 0 <= k < r.len() implies buckets_distinct(#[trigger] r[k].1) by {
                if k < es.len() {
                    assert(buckets_distinct(es[k].1));
                }
            }
        },
    }
}

// ── Purging ──────────────────────────────────────────────────────────────────

/// The entries after `purge(midashi, okuri, word)` and whether a candidate went.
pub open spec fn purge_entries(
    es: Seq<(Seq<char>, Seq<BucketView>)>,
    midashi: Seq<char>,
    okuri: Option<Seq<char>>,
    word: Seq<char>,
) -> (Seq<(Seq<char>, Seq<BucketView>)>, bool) {
    match key_index(es, midashi) {
        None => (es, false),
        Some(i) => match bucket_index(es[i].1, okuri) {
            None => (es, false),
            Some(j) => {
                let bs = es[i].1;
                let cs = bs[j].candidates;
                let kept = remove_word(cs, word);
                let bs2 = if kept.len() == 0 {
                    bs.remove(j)
                } else {
                    bs.update(j, BucketView { okuri, candidates: kept })
                };
                let es2 = if bs2.len() == 0 {
                    es.remove(i)
                } else {
                    es.update(i, (midashi, bs2))
                };
                (es2, kept.len() != cs.len())
            },
        },
    }
}

proof fn lemma_purge_wf(es: Seq<(Seq<char>, Seq<BucketView>)>, m: Seq<char>, o: Option<Seq<char>>, w: Seq<char>)
    requires
        entries_wf(es),
    ensures
        entries_wf(purge_entries(es, m, o, w).0),
{
    lemma_key_index(es, m);
    if let Some(i) = key_index(es, m) {
        lemma_bucket_index(es[i].1, o);
        if let Some(j) = bucket_index(es[i].1, o) {
            let bs = es[i].1;
            assert(buckets_distinct(bs));
            let kept = remove_word(bs[j].candidates, w);
            let bs2 = if kept.len() == 0 { bs.remove(j) } else { bs.update(j, BucketView { okuri: o, candidates: kept }) };
            assert(buckets_distinct(bs2)) by {
                if kept.len() == 0 {
                    assert forall|a: int, b: int| 0 <= a < b < bs2.len() implies bs2[a].okuri != bs2[b].okuri by {
                        let a0 = if a < j { a } else { a + 1 };
                        let b0 = if b < j { b } else { b + 1 };
                        assert(bs2[a] == bs[a0] && bs2[b] == bs[b0]);
                    }
                }
            }
            let r = purge_entries(es, m, o, w).0;
            if bs2.len() == 0 {
                let d = es.remove(i);
                assert forall|a: int, b: int| 0 <= a < b < r.len() implies r[a].0 != r[b].0 by {
                    let a0 = if a < i { a } else { a + 1 };
                    let b0 = if b < i { b } else { b + 1 };
                    assert(d[a] == es[a0] && d[b] == es[b0]);
                }
                assert forall|k: int| 0 <= k < r.len() implies buckets_distinct(#[trigger] r[k].1) by {
                    let k0 = if k < i { k } else { k + 1 };
                    assert(d[k] == es[k0]);
                    assert(buckets_distinct(es[k0].1));
                }
            } else {
                assert forall|k: int| 0 <= k < r.len() implies buckets_distinct(#[trigger] r[k].1) by {
                    if k != i {
                        assert(buckets_distinct(es[k].1));
                    }
                }
            }
        }
    }
}

// ── Serialization ────────────────────────────────────────────────────────────

pub const USER_DICT_HEADER: &'static str = ";; y2skk user dictionary\n;;; okuri-ari entries.\n";
pub const NASI_HEADER: &'static str = "\n;;; okuri-nasi entries.\n";

/// The text of one candidate in a dictionary line.
pub open spec fn cand_text(c: CandidateView) -> Seq<char> {
    match c.lisp_form {
        Some(LispFormView::IgnoreDicWord(ws)) => spec_render(ws),
        Some(LispFormView::Unknown) => c.word,
        None => match c.annotation {
            Some(a) => c.word + seq![';'] + a,
            None => c.word,
        },
    }
}

/// The candidate texts separated by `/`.
pub open spec fn join_slash(cs: Seq<CandidateView>) -> Seq<char>
    decreases cs.len(),
{
    if cs.len() == 0 {
        Seq::empty()
    } else if cs.len() == 1 {
        cand_text(cs[0])
    } else {
        join_slash(cs.drop_last()) + seq!['/'] + cand_text(cs.last())
    }
}

/// The dictionary line of one bucket.
pub open spec fn entry_line(m: Seq<char>, b: BucketView) -> Seq<char> {
    m + (match b.okuri {
        Some(o) => o,
        None => Seq::empty(),
    }) + seq![' ', '/'] + join_slash(b.candidates) + seq!['/']
}

/// The lines of the buckets with (`ari`) or without okurigana.
pub open spec fn bucket_lines(m: Seq<char>, bs: Seq<BucketView>, ari: bool) -> Seq<Seq<char>>
    decreases bs.len(),
{
    if bs.len() == 0 {
        Seq::empty()
    } else {
        bucket_lines(m, bs.drop_last(), ari) + (if (bs.last().okuri is Some) == ari {
            seq![entry_line(m, bs.last())]
        } else {
            Seq::empty()
        })
    }
}

pub open spec fn all_lines(es: Seq<(Seq<char>, Seq<BucketView>)>, ari: bool) -> Seq<Seq<char>>
    decreases es.len(),
{
    if es.len() == 0 {
        Seq::empty()
    } else {
        all_lines(es.drop_last(), ari) + bucket_lines(es.last().0, es.last().1, ari)
    }
}

/// Lines joined with `'\n'`.
pub open spec fn join_nl(ls: Seq<Seq<char>>) -> Seq<char>
    decreases ls.len(),
{
    if ls.len() == 0 {
        Seq::empty()
    } else if ls.len() == 1 {
        ls[0]
    } else {
        join_nl(ls.drop_last()) + seq!['\n'] + ls.last()
    }
}

/// The file text of a user dictionary: okuri-ari lines, then okuri-nasi
/// lines, each in entry order (oldest first).
pub open spec fn spec_serialize(es: Seq<(Seq<char>, Seq<BucketView>)>) -> Seq<char> {
    USER_DICT_HEADER@ + join_nl(all_lines(es, true)) + NASI_HEADER@ + join_nl(all_lines(es, false)) + seq!['\n']
}

fn cand_text_exec(c: &Candidate) -> (r: String)
    ensures
        r@ == cand_text(c@),
{
    match &c.lisp_form {
        Some(LispForm::IgnoreDicWord(ws)) => render_ignore_dic_word(ws.as_slice()),
        Some(LispForm::Unknown) => c.word.clone(),
        None => match &c.annotation {
            Some(a) => {
                let mut r = c.word.clone();
                push_char(&mut r, ';');
                r.append(a.as_str());
                r
            },
            None => c.word.clone(),
        },
    }
}

fn entry_line_exec(m: &str, b: &OkuriBucket) -> (r: String)
    ensures
        r@ == entry_line(m@, b@),
{
    let ghost cv = cands_view(b.candidates@);
    let mut r = m.to_owned();
    match &b.okuri {
        Some(o) => r.append(o.as_str()),
        None => {},
    }
    push_char(&mut r, ' ');
    push_char(&mut r, '/');
    let ghost head = r@;
    let mut i: usize = 0;
    while i < b.candidates.len()
        invariant
            i <= b.candidates.len(),
            cv == cands_view(b.candidates@),
            r@ == head + join_slash(cv.take(i as int)),
        decreases b.candidates.len() - i,
    {
        let ghost r0 = r@;
        if i > 0 {
            push_char(&mut r, '/');
        }
        let t = cand_text_exec(&b.candidates[i]);
        r.append(t.as_str());
        proof {
            let c2 = cv.take(i + 1);
            assert(c2.drop_last() =~= cv.take(i as int));
            assert(c2.last() == cv[i as int]);
            if i == 0 {
                assert(r@ =~= head + join_slash(c2));
            } else {
                assert(r@ =~= head + join_slash(c2));
            }
        }
        i += 1;
    }
    push_char(&mut r, '/');
    assert(cv.take(b.candidates.len() as int) =~= cv);
    assert(r@ =~= entry_line(m@, b@));
    r
}

fn join_lines(ls: &Vec<String>) -> (r: String)
    ensures
        r@ == join_nl(strs_view(ls@)),
{
    let ghost lv = strs_view(ls@);
    let mut r = String::new();
    let mut i: usize = 0;
    while i < ls.len()
        invariant
            i <= ls.len(),
            lv == strs_view(ls@),
            r@ == join_nl(lv.take(i as int)),
        decreases ls.len() - i,
    {
        if i > 0 {
            push_char(&mut r, '\n');
        }
        r.append(ls[i].as_str());
        proof {
            let l2 = lv.take(i + 1);
            assert(l2.drop_last() =~= lv.take(i as int));
            assert(l2.last() == lv[i as int]);
            if i == 0 {
                assert(lv.take(0) =~= Seq::<Seq<char>>::empty());
                assert(r@ =~= join_nl(l2));
            } else {
                assert(r@ =~= join_nl(l2));
            }
        }
        i += 1;
    }
    assert(lv.take(ls.len() as int) =~= lv);
    r
}

// ── UserDict (read-write) ─────────────────────────────────────────────────────

/// Writable user dictionary, always stored as UTF-8.
///
/// Headwords are kept oldest-first; `learn()` moves the used headword to the
/// end so `complete()` (which goes backwards) returns the most-recently-used
/// headwords first.
pub struct UserDict {
    path: String,
    entries: IndexMap<String, Vec<OkuriBucket>>,
    dirty: bool,
}

/// Most recently used first: the completions of `prefix` among `hs` taken
/// from the end.
pub open spec fn completions_rev(hs: Seq<HeadwordView>, prefix: Seq<char>) -> Seq<Seq<char>>
    decreases hs.len(),
{
    if hs.len() == 0 {
        Seq::empty()
    } else {
        (if completes(hs.last(), prefix) {
            seq![hs.last().midashi]
        } else {
            Seq::empty()
        }) + completions_rev(hs.drop_last(), prefix)
    }
}

impl UserDict {
    /// The entries, oldest first.
    pub closed spec fn spec_map(&self) -> Seq<(Seq<char>, Seq<BucketView>)> {
        user_map_entries(self.entries)
    }

    pub closed spec fn spec_dirty(&self) -> bool {
        self.dirty
    }

    pub closed spec fn spec_path(&self) -> Seq<char> {
        self.path@
    }

    #[verifier::type_invariant]
    spec fn wf(&self) -> bool {
        entries_wf(user_map_entries(self.entries))
    }

    /// Creates an empty in-memory user dict pointed at `path` (not yet saved).
    pub fn empty(path: &str) -> (r: Self)
        ensures
            r.spec_map() == Seq::<(Seq<char>, Seq<BucketView>)>::empty(),
            !r.spec_dirty(),
            r.spec_path() == path@,
    {
        UserDict { path: path.to_owned(), entries: map_new(), dirty: false }
    }

    /// Builds the user dict from the text of its file, or an empty dict when
    /// there is no file (`contents` is `None`).
    pub fn load(path: &str, contents: Option<&str>) -> (r: Result<Self, DictError>)
        ensures
            match contents {
                None => r matches Ok(d) && d.spec_map() == Seq::<(Seq<char>, Seq<BucketView>)>::empty(),
                Some(src) => match r {
                    Ok(d) => spec_parse_dict(src@) == Ok::<Seq<HeadwordView>, nat>(heads_of(d.spec_map())),
                    Err(DictError::Parse { line, .. }) => spec_parse_dict(src@) == Err::<Seq<HeadwordView>, nat>(line as nat),
                    Err(_) => false,
                },
            },
            r matches Ok(d) ==> !d.spec_dirty() && d.spec_path() == path@,
    {
        let src = match contents {
            None => return Ok(UserDict::empty(path)),
            Some(s) => s,
        };
        let hs = parse_skk_dict(src)?;
        let ghost hv = headwords_view(hs@);
        proof {
            let ls = split_lines(src@);
            lemma_parse_dict_distinct(ls, ls.len());
        }
        let mut m = map_new();
        let mut i: usize = 0;
        assert(heads_of(user_map_entries(m)) =~= hv.take(0));
        while i < hs.len()
            invariant
                i <= hs.len(),
                hv == headwords_view(hs@),
                heads_of(user_map_entries(m)) == hv.take(i as int),
                heads_distinct(hv),
            decreases hs.len() - i,
        {
            let h = &hs[i];
            let ghost es = user_map_entries(m);
            proof {
                lemma_key_index(es, h.midashi@);
                assert(heads_of(es).len() == es.len());
                assert(es.len() == i);
                if let Some(k) = key_index(es, h.midashi@) {
                    assert(heads_of(es)[k].midashi == h.midashi@);
                    assert(hv.take(i as int)[k] == hv[k]);
                    assert(hv[i as int].midashi == h.midashi@);
                    assert(false);
                }
            }
            let key = h.midashi.clone();
            let val = clone_buckets(&h.buckets);
            map_insert(&mut m, key, val);
            proof {
                assert(user_map_entries(m) == es.push((hv[i as int].midashi, hv[i as int].buckets)));
                assert(heads_of(user_map_entries(m)) =~= heads_of(es).push(hv[i as int]));
                assert(hv.take(i + 1) =~= hv.take(i as int).push(hv[i as int]));
            }
            i += 1;
        }
        assert(hv.take(hv.len() as int) =~= hv);
        proof {
            let es = user_map_entries(m);
            assert(heads_of(es) == hv);
            assert forall|a: int, b: int| 0 <= a < b < es.len() implies es[a].0 != es[b].0 by {
                assert(heads_of(es)[a].midashi == es[a].0);
                assert(heads_of(es)[b].midashi == es[b].0);
            }
            assert forall|k: int| 0 <= k < es.len() implies buckets_distinct(#[trigger] es[k].1) by {
                assert(heads_of(es)[k].buckets == es[k].1);
                assert(buckets_distinct(hv[k].buckets));
            }
        }
        Ok(UserDict { path: path.to_owned(), entries: m, dirty: false })
    }

    pub fn path(&self) -> (r: &str)
        ensures
            r@ == self.spec_path(),
    {
        self.path.as_str()
    }

    pub fn is_dirty(&self) -> (r: bool)
        ensures
            r == self.spec_dirty(),
    {
        self.dirty
    }

    /// The file text to write when there are unsaved changes.
    pub fn save_contents(&self) -> (r: Option<String>)
        ensures
            !self.spec_dirty() ==> r is None,
            self.spec_dirty() ==> (r matches Some(t) && t@ == spec_serialize(self.spec_map())),
    {
        if !self.dirty {
            return None;
        }
        Some(self.serialize())
    }

    /// Records that the contents were written out.
    pub fn mark_saved(&mut self)
        ensures
            !final(self).spec_dirty(),
            final(self).spec_map() == old(self).spec_map(),
            final(self).spec_path() == old(self).spec_path(),
    {
        proof {
            use_type_invariant(&*self);
        }
        self.dirty = false;
    }

    /// Serializes to UTF-8 SKK format, keeping entry order (oldest first) so
    /// that recency is restored on the next load.
    fn serialize(&self) -> (r: String)
        ensures
            r@ == spec_serialize(self.spec_map()),
    {
        let ghost es = user_map_entries(self.entries);
        let n = map_len(&self.entries);
        let mut ari: Vec<String> = Vec::new();
        let mut nasi: Vec<String> = Vec::new();
        let mut i: usize = 0;
        while i < n
            invariant
                i <= n,
                n == es.len(),
                es == user_map_entries(self.entries),
                strs_view(ari@) == all_lines(es.take(i as int), true),
                strs_view(nasi@) == all_lines(es.take(i as int), false),
            decreases n - i,
        {
            let (k, bs) = map_get_index(&self.entries, i).unwrap();
            let ghost bsv = buckets_view(bs@);
            proof {
                assert(es.take(i + 1).drop_last() =~= es.take(i as int));
                assert(es.take(i + 1).last() == es[i as int]);
            }
            let ghost a0 = strs_view(ari@);
            let ghost n0 = strs_view(nasi@);
            let mut j: usize = 0;
            while j < bs.len()
                invariant
                    j <= bs.len(),
                    bsv == buckets_view(bs@),
                    strs_view(ari@) == a0 + bucket_lines(k@, bsv.take(j as int), true),
                    strs_view(nasi@) == n0 + bucket_lines(k@, bsv.take(j as int), false),
                decreases bs.len() - j,
            {
                proof {
                    assert(bsv.take(j + 1).drop_last() =~= bsv.take(j as int));
                    assert(bsv.take(j + 1).last() == bsv[j as int]);
                }
                let line = entry_line_exec(k.as_str(), &bs[j]);
                let ghost ar = strs_view(ari@);
                let ghost nr = strs_view(nasi@);
                if bs[j].okuri.is_some() {
                    ari.push(line);
                    assert(strs_view(ari@) =~= ar.push(entry_line(k@, bsv[j as int])));
                    assert(strs_view(ari@) =~= a0 + bucket_lines(k@, bsv.take(j + 1), true));
                    assert(strs_view(nasi@) =~= n0 + bucket_lines(k@, bsv.take(j + 1), false));
                } else {
                    nasi.push(line);
                    assert(strs_view(nasi@) =~= nr.push(entry_line(k@, bsv[j as int])));
                    assert(strs_view(ari@) =~= a0 + bucket_lines(k@, bsv.take(j + 1), true));
                    assert(strs_view(nasi@) =~= n0 + bucket_lines(k@, bsv.take(j + 1), false));
                }
                j += 1;
            }
            assert(bsv.take(bs.len() as int) =~= bsv);
            i += 1;
        }
        assert(es.take(n as int) =~= es);
        let mut out = USER_DICT_HEADER.to_owned();
        let a = join_lines(&ari);
        out.append(a.as_str());
        out.append(NASI_HEADER);
        let b = join_lines(&nasi);
        out.append(b.as_str());
        push_char(&mut out, '\n');
        assert(out@ =~= spec_serialize(es));
        out
    }
}

impl DictionaryProvider for UserDict {
    fn lookup(&self, midashi: &str, okuri: Option<&str>) -> (r: Option<DictEntry>)
        ensures
            match r {
                Some(e) => lookup_in(heads_of(self.spec_map()), midashi@, opt_ref(okuri)) == Some(e@),
                None => lookup_in(heads_of(self.spec_map()), midashi@, opt_ref(okuri)) is None,
            },
    {
        let ghost es = user_map_entries(self.entries);
        proof {
            lemma_key_index_heads(es, midashi@);
            lemma_key_index(es, midashi@);
        }
        match map_index_of(&self.entries, midashi) {
            None => None,
            Some(i) => {
                let (_k, bs) = map_get_index(&self.entries, i).unwrap();
                assert(heads_of(es)[i as int].buckets == buckets_view(bs@));
                proof {
                    lemma_bucket_index(buckets_view(bs@), opt_ref(okuri));
                }
                match find_bucket(bs, okuri) {
                    None => None,
                    Some(j) => {
                        let candidates = clone_candidates(bs[j].candidates.as_slice());
                        let okuri_s = match okuri {
                            Some(x) => Some(x.to_owned()),
                            None => None,
                        };
                        Some(DictEntry { midashi: midashi.to_owned(), okuri: okuri_s, candidates })
                    },
                }
            },
        }
    }

    /// Learns a new conversion, promoting it to the front of the candidate list.
    /// Also moves the headword to the end so that `complete()` returns the
    /// most-recently-used headwords first.
    ///
    /// Words learned are removed from any `(skk-ignore-dic-word ...)` entry of
    /// the same bucket; an ignore entry whose list becomes empty is dropped.
    fn learn(&mut self, entry: DictEntry) -> (r: Result<(), DictError>)
        ensures
            r is Ok,
            final(self).spec_map() == learn_entries(old(self).spec_map(), entry@),
            final(self).spec_dirty(),
            final(self).spec_path() == old(self).spec_path(),
    {
        proof {
            use_type_invariant(&*self);
            lemma_learn_entries_wf(user_map_entries(self.entries), entry@);
        }
        let ghost es = user_map_entries(self.entries);
        let ghost ev = entry@;
        proof {
            lemma_key_index(es, ev.midashi);
        }
        let mut entries = map_new();
        std::mem::swap(&mut entries, &mut self.entries);
        let removed = map_shift_remove(&mut entries, entry.midashi.as_str());
        let old_buckets = match removed {
            Some(v) => v,
            None => Vec::new(),
        };
        proof {
            if key_index(es, ev.midashi) is None {
                assert(buckets_view(old_buckets@) =~= Seq::<BucketView>::empty());
            }
        }
        let DictEntry { midashi, okuri, candidates } = entry;
        let new_buckets = learn_buckets_exec(old_buckets, okuri, &candidates);
        proof {
            let mid = user_map_entries(entries);
            lemma_key_index(mid, ev.midashi);
            if let Some(i) = key_index(es, ev.midashi) {
                assert forall|j: int| 0 <= j < mid.len() implies mid[j].0 != ev.midashi by {
                    let j0 = if j < i { j } else { j + 1 };
                    assert(mid[j] == es[j0]);
                }
            }
        }
        map_insert(&mut entries, midashi, new_buckets);
        self.entries = entries;
        self.dirty = true;
        Ok(())
    }

    /// Removes the candidate whose word equals `word` from the user dict.
    /// Cleans up empty okuri buckets and empty midashi entries so the on-disk
    /// representation stays compact.
    fn purge(&mut self, midashi: &str, okuri: Option<&str>, word: &str) -> (r: Result<bool, DictError>)
        ensures
            r == Ok::<bool, DictError>(purge_entries(old(self).spec_map(), midashi@, opt_ref(okuri), word@).1),
            final(self).spec_map() == purge_entries(old(self).spec_map(), midashi@, opt_ref(okuri), word@).0,
            final(self).spec_dirty() == (old(self).spec_dirty() || r == Ok::<bool, DictError>(true)),
            final(self).spec_path() == old(self).spec_path(),
    {
        proof {
            use_type_invariant(&*self);
            lemma_purge_wf(user_map_entries(self.entries), midashi@, opt_ref(okuri), word@);
        }
        let ghost es = user_map_entries(self.entries);
        proof {
            lemma_key_index(es, midashi@);
        }
        let i = match map_index_of(&self.entries, midashi) {
            None => return Ok(false),
            Some(i) => i,
        };
        let (_k, bs_ref) = map_get_index(&self.entries, i).unwrap();
        let ghost bv = buckets_view(bs_ref@);
        proof {
            lemma_bucket_index(bv, opt_ref(okuri));
        }
        let j = match find_bucket(bs_ref, okuri) {
            None => return Ok(false),
            Some(j) => j,
        };
        let mut bs = clone_buckets(bs_ref);
        let before = bs[j].candidates.len();
        let kept = remove_word_exec(&bs[j].candidates, word);
        let removed = kept.len() != before;
        let ghost cv = bv[j as int].candidates;
        assert(cands_view(kept@).len() == kept@.len());
        let b = bs.remove(j);
        if kept.len() > 0 {
            bs.insert(j, OkuriBucket { okuri: b.okuri, candidates: kept });
            assert(buckets_view(bs@) =~= bv.update(j as int, BucketView { okuri: opt_ref(okuri), candidates: remove_word(cv, word@) }));
        } else {
            assert(buckets_view(bs@) =~= bv.remove(j as int));
        }
        let mut entries = map_new();
        std::mem::swap(&mut entries, &mut self.entries);
        if bs.len() == 0 {
            let _ = map_shift_remove(&mut entries, midashi);
        } else {
            map_insert(&mut entries, midashi.to_owned(), bs);
        }
        self.entries = entries;
        if removed {
            self.dirty = true;
        }
        Ok(removed)
    }

    fn priority(&self) -> (r: i32)
        ensures
            r == i32::MAX,
    {
        i32::MAX
    }

    /// Returns okuri-nashi headwords starting with `prefix` (excluding `prefix`
    /// itself) in most-recently-used-first order.
    fn complete(&self, prefix: &str) -> (r: Vec<String>)
        ensures
            strs_view(r@) == completions_rev(heads_of(self.spec_map()), prefix@),
    {
        let ghost hs = heads_of(user_map_entries(self.entries));
        let pv = chars_of(prefix);
        let n = map_len(&self.entries);
        let mut r: Vec<String> = Vec::new();
        let mut i: usize = n;
        assert(hs.take(n as int) =~= hs);
        assert(strs_view(r@) =~= completions_rev(hs, prefix@).take(0));
        while i > 0
            invariant
                i <= n,
                n == hs.len(),
                hs == heads_of(user_map_entries(self.entries)),
                pv@ == prefix@,
                strs_view(r@) + completions_rev(hs.take(i as int), prefix@) == completions_rev(hs, prefix@),
            decreases i,
        {
            let (k, bs) = map_get_index(&self.entries, i - 1).unwrap();
            let ghost h = hs[i - 1];
            assert(h.midashi == k@ && h.buckets == buckets_view(bs@));
            let kv = chars_of(k.as_str());
            let eligible = starts_with_chars(kv.as_slice(), pv.as_slice())
                && !str_eq(k.as_str(), prefix)
                && find_bucket(bs, None).is_some();
            proof {
                assert(opt_ref(None) == None::<Seq<char>>);
                let t = hs.take(i as int);
                assert(t.drop_last() =~= hs.take(i - 1));
                assert(t.last() == h);
            }
            let ghost r0 = strs_view(r@);
            if eligible {
                r.push(k.clone());
                assert(strs_view(r@) =~= r0 + seq![h.midashi]);
            }
            proof {
                let t = hs.take(i as int);
                assert(completions_rev(t, prefix@) == (if completes(h, prefix@) { seq![h.midashi] } else { Seq::empty() }) + completions_rev(hs.take(i - 1), prefix@));
                if eligible {
                    assert(strs_view(r@) + completions_rev(hs.take(i - 1), prefix@) =~= r0 + completions_rev(t, prefix@));
                } else {
                    assert(strs_view(r@) + completions_rev(hs.take(i - 1), prefix@) =~= r0 + completions_rev(t, prefix@));
                }
            }
            i -= 1;
        }
        assert(hs.take(0) =~= Seq::<HeadwordView>::empty());
        assert(strs_view(r@) =~= strs_view(r@) + completions_rev(hs.take(0), prefix@));
        r
    }
}

// ── Laws of the user dictionary ──────────────────────────────────────────────

proof fn lemma_promote_first(l: Seq<CandidateView>, cs: Seq<CandidateView>)
    requires
        cs.len() > 0,
    ensures
        promote(l, cs).len() > 0,
        promote(l, cs)[0] == cs[0],
{
}

proof fn lemma_learn_buckets_lookup(bs: Seq<BucketView>, o: Option<Seq<char>>, cs: Seq<CandidateView>)
    ensures
        ({
            let lb = learn_buckets(bs, o, cs);
            bucket_index(lb, o) matches Some(j) && lb[j].candidates == strip_learned(
                promote(
                    match bucket_index(bs, o) {
                        Some(k) => bs[k].candidates,
                        None => Seq::empty(),
                    },
                    cs,
                ),
                plain_words(cs),
            )
        }),
{
    lemma_bucket_index(bs, o);
    let lb = learn_buckets(bs, o, cs);
    match bucket_index(bs, o) {
        Some(k) => {
            lemma_bucket_index_is(lb, o, k);
        },
        None => {
            lemma_bucket_index_is(lb, o, bs.len() as int);
        },
    }
}

/// After learning an entry whose first candidate is a plain word, that
/// word is the first candidate looked up for the entry's headword and
/// okurigana, and the headword is the most recently used one.
pub proof fn lemma_learned_word_first(es: Seq<(Seq<char>, Seq<BucketView>)>, e: EntryView)
    requires
        entries_wf(es),
        e.candidates.len() > 0,
        e.candidates[0].lisp_form is None,
    ensures
        learn_entries(es, e).last().0 == e.midashi,
        lookup_in(heads_of(learn_entries(es, e)), e.midashi, e.okuri) matches Some(v)
            && v.candidates.len() > 0 && v.candidates[0] == e.candidates[0],
{
    let r = learn_entries(es, e);
    lemma_key_index(es, e.midashi);
    let bs = match key_index(es, e.midashi) {
        Some(i) => es[i].1,
        None => Seq::empty(),
    };
    let hr = heads_of(r);
    assert forall|j: int| 0 <= j < hr.len() - 1 implies hr[j].midashi != e.midashi by {
        match key_index(es, e.midashi) {
            Some(i) => {
                let j0 = if j < i { j } else { j + 1 };
                assert(r[j] == es[j0]);
            },
            None => {
                assert(r[j] == es[j]);
            },
        }
    }
    lemma_head_index_is(hr, e.midashi, hr.len() - 1);
    lemma_learn_buckets_lookup(bs, e.okuri, e.candidates);
    let lb = learn_buckets(bs, e.okuri, e.candidates);
    assert(hr[hr.len() - 1].buckets == lb);
    let prev = match bucket_index(bs, e.okuri) {
        Some(k) => bs[k].candidates,
        None => Seq::empty(),
    };
    lemma_promote_first(prev, e.candidates);
    lemma_strip_keeps_plain_first(promote(prev, e.candidates), plain_words(e.candidates));
}

/// A headword just learned without okurigana is offered first when
/// completing any proper prefix of it.
pub proof fn lemma_learned_headword_completes_first(
    es: Seq<(Seq<char>, Seq<BucketView>)>,
    e: EntryView,
    prefix: Seq<char>,
)
    requires
        entries_wf(es),
        e.okuri is None,
        is_prefix(prefix, e.midashi),
        e.midashi != prefix,
    ensures
        completions_rev(heads_of(learn_entries(es, e)), prefix).len() > 0,
        completions_rev(heads_of(learn_entries(es, e)), prefix)[0] == e.midashi,
{
    let r = learn_entries(es, e);
    let hr = heads_of(r);
    lemma_key_index(es, e.midashi);
    let bs = match key_index(es, e.midashi) {
        Some(i) => es[i].1,
        None => Seq::empty(),
    };
    lemma_learn_buckets_lookup(bs, e.okuri, e.candidates);
    assert(hr.last().buckets == learn_buckets(bs, e.okuri, e.candidates));
    assert(completes(hr.last(), prefix));
}

} // verus!
