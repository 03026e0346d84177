//! Digit runs in headwords and `#n` markers in candidates.

use vstd::prelude::*;

use crate::dict::entry::strs_view;
use crate::num::convert::{convert, spec_convert};
use crate::num::types::{spec_from_marker, NumType};
use crate::text::{char_to_string, chars_of, is_ascii_digit, push_char, spec_is_ascii_digit, string_from_chars};

verus! {

/// Defensive cap on the number of expansions a single dict candidate may
/// produce via [`expand_with_recursive_lookup`].
pub const MAX_RECURSIVE_EXPANSIONS: usize = 256;

// ── scan ─────────────────────────────────────────────────────────────────────

/// Scanner state: template so far, finished runs, whether a run is open and
/// the open run.
pub struct ScanState {
    pub template: Seq<char>,
    pub runs: Seq<Seq<char>>,
    pub in_run: bool,
    pub buf: Seq<char>,
}

pub open spec fn scan_acc(s: Seq<char>) -> ScanState
    decreases s.len(),
{
    if s.len() == 0 {
        ScanState { template: Seq::empty(), runs: Seq::empty(), in_run: false, buf: Seq::empty() }
    } else {
        let st = scan_acc(s.drop_last());
        let c = s.last();
        if spec_is_ascii_digit(c) {
            ScanState { template: st.template, runs: st.runs, in_run: true, buf: st.buf.push(c) }
        } else if st.in_run {
            ScanState {
                template: st.template.push('#').push(c),
                runs: st.runs.push(st.buf),
                in_run: false,
                buf: Seq::empty(),
            }
        } else {
            ScanState { template: st.template.push(c), runs: st.runs, in_run: false, buf: st.buf }
        }
    }
}

/// The template (each maximal digit run replaced by `#`) and the runs.
pub open spec fn spec_scan(s: Seq<char>) -> (Seq<char>, Seq<Seq<char>>) {
    let st = scan_acc(s);
    if st.in_run {
        (st.template.push('#'), st.runs.push(st.buf))
    } else {
        (st.template, st.runs)
    }
}

/// Scans `midashi` for maximal runs of ASCII decimal digits, replaces each run
/// with a single `#`, and returns the resulting template string together with
/// the ordered list of digit runs.
pub fn scan(midashi: &str) -> (r: (String, Vec<String>))
    ensures
        (r.0@, strs_view(r.1@)) == spec_scan(midashi@),
{
    let cs = chars_of(midashi);
    let mut template = String::new();
    let mut runs: Vec<String> = Vec::new();
    let mut in_run = false;
    let mut run_buf = String::new();
    let mut i: usize = 0;
    assert(cs@.take(0) =~= Seq::<char>::empty());
    assert(strs_view(runs@) =~= Seq::<Seq<char>>::empty());
    while i < cs.len()
        invariant
            i <= cs.len(),
            scan_acc(cs@.take(i as int)) == (ScanState {
                template: template@,
                runs: strs_view(runs@),
                in_run,
                buf: run_buf@,
            }),
        decreases cs.len() - i,
    {
        let ch = cs[i];
        assert(cs@.take(i + 1).drop_last() =~= cs@.take(i as int));
        if is_ascii_digit(ch) {
            in_run = true;
            push_char(&mut run_buf, ch);
        } else {
            if in_run {
                let ghost r0 = runs@;
                runs.push(run_buf);
                run_buf = String::new();
                assert(strs_view(runs@) =~= strs_view(r0).push(runs@.last()@));
                push_char(&mut template, '#');
                in_run = false;
            }
            push_char(&mut template, ch);
        }
        i += 1;
    }
    assert(cs@.take(cs.len() as int) =~= cs@);
    if in_run {
        let ghost r0 = runs@;
        runs.push(run_buf);
        assert(strs_view(runs@) =~= strs_view(r0).push(runs@.last()@));
        push_char(&mut template, '#');
    }
    (template, runs)
}

/// Returns true if `midashi` contains at least one ASCII decimal digit run.
pub fn has_digit_run(midashi: &str) -> (r: bool)
    ensures
        r == exists|i: int| 0 <= i < midashi@.len() && spec_is_ascii_digit(#[trigger] midashi@[i]),
{
    let cs = chars_of(midashi);
    let mut i: usize = 0;
    while i < cs.len()
        invariant
            i <= cs.len(),
            cs@ == midashi@,
            forall|k: int| 0 <= k < i ==> !spec_is_ascii_digit(#[trigger] cs@[k]),
        decreases cs.len() - i,
    {
        if is_ascii_digit(cs[i]) {
            return true;
        }
        i += 1;
    }
    false
}

proof fn lemma_scan_acc_runs(s: Seq<char>)
    ensures
        scan_acc(s).in_run <==> scan_acc(s).buf.len() > 0,
        scan_acc(s).in_run ==> (s.len() > 0 && spec_is_ascii_digit(s.last())),
        (scan_acc(s).runs.len() > 0 || scan_acc(s).in_run) <==> exists|i: int|
            0 <= i < s.len() && spec_is_ascii_digit(#[trigger] s[i]),
    decreases s.len(),
{
    if s.len() > 0 {
        let d = s.drop_last();
        lemma_scan_acc_runs(d);
        assert forall|i: int| 0 <= i < d.len() implies d[i] == s[i] by {}
        if exists|i: int| 0 <= i < d.len() && spec_is_ascii_digit(#[trigger] d[i]) {
            let i = choose|i: int| 0 <= i < d.len() && spec_is_ascii_digit(#[trigger] d[i]);
            assert(spec_is_ascii_digit(s[i]));
        }
        if spec_is_ascii_digit(s.last()) {
            assert(spec_is_ascii_digit(s[s.len() - 1]));
        }
        if exists|i: int| 0 <= i < s.len() && spec_is_ascii_digit(#[trigger] s[i]) {
            let i = choose|i: int| 0 <= i < s.len() && spec_is_ascii_digit(#[trigger] s[i]);
            if i < d.len() {
                assert(spec_is_ascii_digit(d[i]));
            }
        }
    }
}

/// A headword has a digit run exactly when scanning it finds a run.
pub proof fn lemma_has_digit_run_iff_runs(midashi: Seq<char>)
    ensures
        spec_scan(midashi).1.len() > 0 <==> exists|i: int|
            0 <= i < midashi.len() && spec_is_ascii_digit(#[trigger] midashi[i]),
{
    lemma_scan_acc_runs(midashi);
}

// ── expand ───────────────────────────────────────────────────────────────────

/// Expansion of `w` from position `i`, the next run being `runs[k]`.
pub open spec fn expand_from(w: Seq<char>, i: int, runs: Seq<Seq<char>>, k: int) -> Option<Seq<char>>
    decreases w.len() - i,
{
    if i < 0 || i >= w.len() {
        Some(Seq::empty())
    } else if w[i] == '#' && i + 1 < w.len() && spec_from_marker(w[i + 1]) is Some {
        if 0 <= k < runs.len() {
            match spec_convert(runs[k], spec_from_marker(w[i + 1]).unwrap()) {
                Some(c) => match expand_from(w, i + 2, runs, k + 1) {
                    Some(rest) => Some(c + rest),
                    None => None,
                },
                None => None,
            }
        } else {
            None
        }
    } else {
        match expand_from(w, i + 1, runs, k) {
            Some(rest) => Some(seq![w[i]] + rest),
            None => None,
        }
    }
}

/// `prefix` before the expansion, or `None` when the expansion fails.
pub open spec fn prepend_opt(prefix: Seq<char>, o: Option<Seq<char>>) -> Option<Seq<char>> {
    match o {
        Some(rest) => Some(prefix + rest),
        None => None,
    }
}

/// Expands `#n` markers in `candidate_word` using the digit runs extracted by
/// [`scan`].
///
/// Each `#X` marker (where X is a known [`NumType`] marker character) is
/// replaced by the next digit run converted with the type for X.
///
/// Returns `None` if the candidate references more markers than there are
/// runs, or a conversion is not representable.
pub fn expand(candidate_word: &str, runs: &[String]) -> (r: Option<String>)
    ensures
        match r {
            Some(s) => expand_from(candidate_word@, 0, strs_view(runs@), 0) == Some(s@),
            None => expand_from(candidate_word@, 0, strs_view(runs@), 0) is None,
        },
{
    let cs = chars_of(candidate_word);
    let ghost rv = strs_view(runs@);
    let mut result = String::new();
    let mut i: usize = 0;
    let mut run_index: usize = 0;
    while i < cs.len()
        invariant
            i <= cs.len(),
            cs@ == candidate_word@,
            rv == strs_view(runs@),
            expand_from(cs@, 0, rv, 0) == prepend_opt(result@, expand_from(cs@, i as int, rv, run_index as int)),
        decreases cs.len() - i,
    {
        let ch = cs[i];
        let marker = if ch == '#' && i + 1 < cs.len() {
            NumType::from_marker(cs[i + 1])
        } else {
            None
        };
        match marker {
            Some(ty) => {
                if run_index >= runs.len() {
                    return None;
                }
                let converted = match convert(runs[run_index].as_str(), ty) {
                    Some(c) => c,
                    None => return None,
                };
                let ghost r0 = result@;
                result.append(converted.as_str());
                proof {
                    assert(r0 + converted@ + 
                        expand_from(cs@, i + 2, rv, run_index + 1).unwrap_or(Seq::empty()) =~= r0 + (converted@ + expand_from(cs@, i + 2, rv, run_index + 1).unwrap_or(Seq::empty())));
                }
                run_index += 1;
                i += 2;
            },
            None => {
                let ghost r0 = result@;
                push_char(&mut result, ch);
                proof {
                    assert(r0.push(ch) + expand_from(cs@, i + 1, rv, run_index as int).unwrap_or(Seq::empty())
                        =~= r0 + (seq![ch] + expand_from(cs@, i + 1, rv, run_index as int).unwrap_or(Seq::empty())));
                }
                i += 1;
            },
        }
    }
    Some(result)
}

// ── synthesize ───────────────────────────────────────────────────────────────

/// The runs converted with `ty` and concatenated, `None` if one fails.
pub open spec fn convert_all(runs: Seq<Seq<char>>, ty: NumType) -> Option<Seq<char>>
    decreases runs.len(),
{
    if runs.len() == 0 {
        Some(Seq::empty())
    } else {
        match convert_all(runs.drop_last(), ty) {
            Some(p) => match spec_convert(runs.last(), ty) {
                Some(c) => Some(p + c),
                None => None,
            },
            None => None,
        }
    }
}

/// One candidate per type for which every run converts, in the order of `types`.
pub open spec fn spec_synthesize(runs: Seq<Seq<char>>, types: Seq<NumType>) -> Seq<Seq<char>>
    decreases types.len(),
{
    if types.len() == 0 || runs.len() == 0 {
        Seq::empty()
    } else {
        spec_synthesize(runs, types.drop_last()) + match convert_all(runs, types.last()) {
            Some(c) => seq![c],
            None => Seq::empty(),
        }
    }
}

/// Converts every run with `ty` and concatenates the results.
fn convert_runs(runs: &[String], ty: NumType) -> (r: Option<String>)
    ensures
        match r {
            Some(s) => convert_all(strs_view(runs@), ty) == Some(s@),
            None => convert_all(strs_view(runs@), ty) is None,
        },
{
    let ghost rv = strs_view(runs@);
    let mut combined = String::new();
    let mut i: usize = 0;
    while i < runs.len()
        invariant
            i <= runs.len(),
            rv == strs_view(runs@),
            convert_all(rv.take(i as int), ty) == Some(combined@),
        decreases runs.len() - i,
    {
        assert(rv.take(i + 1).drop_last() =~= rv.take(i as int));
        assert(rv.take(i + 1).last() == runs@[i as int]@);
        match convert(runs[i].as_str(), ty) {
            Some(part) => {
                combined.append(part.as_str());
            },
            None => {
                proof {
                    lemma_convert_all_fails(rv, (i + 1) as int, ty);
                }
                return None;
            },
        }
        i += 1;
    }
    assert(rv.take(runs.len() as int) =~= rv);
    Some(combined)
}

proof fn lemma_convert_all_fails(rv: Seq<Seq<char>>, k: int, ty: NumType)
    requires
        0 <= k <= rv.len(),
        convert_all(rv.take(k), ty) is None,
    ensures
        convert_all(rv, ty) is None,
    decreases rv.len() - k,
{
    if k < rv.len() {
        assert(rv.take(k + 1).drop_last() =~= rv.take(k));
        lemma_convert_all_fails(rv, k + 1, ty);
    } else {
        assert(rv.take(k) =~= rv);
    }
}

/// Generates synthetic candidates by converting the digit runs with every type
/// in `types`, concatenating the per-run results.  A type for which some run
/// cannot be converted is skipped.
pub fn synthesize(runs: &[String], types: &[NumType]) -> (r: Vec<String>)
    ensures
        strs_view(r@) == spec_synthesize(strs_view(runs@), types@),
{
    let ghost rv = strs_view(runs@);
    let mut out: Vec<String> = Vec::new();
    if runs.len() == 0 {
        proof {
            lemma_synth_no_runs(rv, types@);
        }
        return out;
    }
    let mut t: usize = 0;
    while t < types.len()
        invariant
            t <= types.len(),
            runs.len() > 0,
            rv == strs_view(runs@),
            strs_view(out@) == spec_synthesize(rv, types@.take(t as int)),
        decreases types.len() - t,
    {
        assert(types@.take(t + 1).drop_last() =~= types@.take(t as int));
        assert(types@.take(t + 1).last() == types@[t as int]);
        let ghost o0 = strs_view(out@);
        match convert_runs(runs, types[t]) {
            Some(c) => {
                out.push(c);
                assert(strs_view(out@) =~= o0.push(out@.last()@));
                assert(strs_view(out@) =~= spec_synthesize(rv, types@.take(t + 1)));
            },
            None => {
                assert(spec_synthesize(rv, types@.take(t + 1)) =~= o0);
            },
        }
        t += 1;
    }
    assert(types@.take(types.len() as int) =~= types@);
    out
}

proof fn lemma_synth_no_runs(rv: Seq<Seq<char>>, types: Seq<NumType>)
    requires
        rv.len() == 0,
    ensures
        spec_synthesize(rv, types) == Seq::<Seq<char>>::empty(),
{
}

} // verus!

verus! {

// ── #4: recursive numeric conversion ─────────────────────────────────────────

/// `x` followed by each alternative, in order.
pub open spec fn row(x: Seq<char>, alts: Seq<Seq<char>>) -> Seq<Seq<char>> {
    alts.map_values(|a: Seq<char>| x + a)
}

/// Every result followed by every alternative, results outermost.
pub open spec fn cross(rs: Seq<Seq<char>>, alts: Seq<Seq<char>>) -> Seq<Seq<char>>
    decreases rs.len(),
{
    if rs.len() == 0 {
        Seq::empty()
    } else {
        cross(rs.drop_last(), alts) + row(rs.last(), alts)
    }
}

/// The cartesian product, cut off after [`MAX_RECURSIVE_EXPANSIONS`] entries.
pub open spec fn cross_cap(rs: Seq<Seq<char>>, alts: Seq<Seq<char>>) -> Seq<Seq<char>> {
    let c = cross(rs, alts);
    if c.len() <= MAX_RECURSIVE_EXPANSIONS { c } else { c.take(MAX_RECURSIVE_EXPANSIONS as int) }
}

/// Every result followed by `t`.
pub open spec fn append_all(rs: Seq<Seq<char>>, t: Seq<char>) -> Seq<Seq<char>> {
    rs.map_values(|r: Seq<char>| r + t)
}

/// Expansion of `w` from position `i` with running results `rs`, next run
/// `k` and the answers of the recursive lookups `outs` (the key asked and
/// the candidates returned), of which `j` were used.  `None` when an
/// answer was asked with another key than the run it stands for.
pub open spec fn rec_run(
    w: Seq<char>,
    i: int,
    runs: Seq<Seq<char>>,
    outs: Seq<(Seq<char>, Seq<Seq<char>>)>,
    rs: Seq<Seq<char>>,
    k: int,
    j: int,
) -> Option<Seq<Seq<char>>>
    decreases w.len() - i,
{
    if i < 0 || i >= w.len() {
        if j == outs.len() { Some(rs) } else { None }
    } else if w[i] == '#' && i + 1 < w.len() && w[i + 1] == '4' {
        if k < 0 || k >= runs.len() {
            if j == outs.len() { Some(Seq::empty()) } else { None }
        } else if j < 0 || j >= outs.len() || outs[j].0 != runs[k] {
            None
        } else if outs[j].1.len() == 0 {
            if j + 1 == outs.len() { Some(Seq::empty()) } else { None }
        } else {
            rec_run(w, i + 2, runs, outs, cross_cap(rs, outs[j].1), k + 1, j + 1)
        }
    } else if w[i] == '#' && i + 1 < w.len() && spec_from_marker(w[i + 1]) is Some {
        if 0 <= k < runs.len() && spec_convert(runs[k], spec_from_marker(w[i + 1]).unwrap()) is Some {
            rec_run(w, i + 2, runs, outs, append_all(rs, spec_convert(runs[k], spec_from_marker(w[i + 1]).unwrap()).unwrap()), k + 1, j)
        } else if j == outs.len() {
            Some(Seq::empty())
        } else {
            None
        }
    } else {
        rec_run(w, i + 1, runs, outs, append_all(rs, seq![w[i]]), k, j)
    }
}

/// `lookup` may answer `out` when asked for `key`.
pub open spec fn lookup_gave<F: Fn(&str) -> Vec<String>>(lookup: F, key: Seq<char>, out: Seq<Seq<char>>) -> bool {
    exists|a: &str, v: Vec<String>| a@ == key && strs_view(v@) == out && call_ensures(lookup, (a,), v)
}

proof fn lemma_cross_step(rs: Seq<Seq<char>>, alts: Seq<Seq<char>>, i: int)
    requires
        0 <= i < rs.len(),
    ensures
        cross(rs.take(i + 1), alts) == cross(rs.take(i), alts) + row(rs[i], alts),
{
    assert(rs.take(i + 1).drop_last() =~= rs.take(i));
}

proof fn lemma_cross_prefix(rs: Seq<Seq<char>>, alts: Seq<Seq<char>>, i: int)
    requires
        0 <= i <= rs.len(),
    ensures
        cross(rs, alts).take(cross(rs.take(i), alts).len() as int) == cross(rs.take(i), alts),
        cross(rs.take(i), alts).len() <= cross(rs, alts).len(),
    decreases rs.len() - i,
{
    if i == rs.len() {
        assert(rs.take(i) =~= rs);
        assert(cross(rs, alts).take(cross(rs, alts).len() as int) =~= cross(rs, alts));
    } else {
        lemma_cross_prefix(rs, alts, i + 1);
        lemma_cross_step(rs, alts, i);
        let a = cross(rs.take(i), alts);
        let b = cross(rs.take(i + 1), alts);
        assert(cross(rs, alts).take(a.len() as int) =~= b.take(a.len() as int));
        assert(b.take(a.len() as int) =~= a);
    }
}

/// Builds [`cross_cap`] of the results and the alternatives.
fn cross_cap_exec(rs: &Vec<String>, alts: &Vec<String>) -> (out: Vec<String>)
    ensures
        strs_view(out@) == cross_cap(strs_view(rs@), strs_view(alts@)),
{
    let ghost rv = strs_view(rs@);
    let ghost av = strs_view(alts@);
    let mut out: Vec<String> = Vec::new();
    let mut i: usize = 0;
    assert(rv.take(0) =~= Seq::<Seq<char>>::empty());
    while i < rs.len()
        invariant
            i <= rs.len(),
            rv == strs_view(rs@),
            av == strs_view(alts@),
            strs_view(out@) == cross(rv.take(i as int), av),
            out@.len() < MAX_RECURSIVE_EXPANSIONS,
        decreases rs.len() - i,
    {
        proof {
            lemma_cross_step(rv, av, i as int);
        }
        let mut j: usize = 0;
        while j < alts.len()
            invariant
                i < rs.len(),
                j <= alts.len(),
                rv == strs_view(rs@),
                av == strs_view(alts@),
                strs_view(out@) == cross(rv.take(i as int), av) + row(rv[i as int], av.take(j as int)),
                out@.len() <= MAX_RECURSIVE_EXPANSIONS,
                cross(rv.take(i as int + 1), av) == cross(rv.take(i as int), av) + row(rv[i as int], av),
            decreases alts.len() - j,
        {
            if out.len() >= MAX_RECURSIVE_EXPANSIONS {
                proof {
                    let p = strs_view(out@);
                    let full = cross(rv, av);
                    lemma_cross_prefix(rv, av, i as int + 1);
                    let b = cross(rv.take(i as int + 1), av);
                    assert(p =~= b.take(p.len() as int));
                    assert(full.take(p.len() as int) =~= b.take(p.len() as int));
                    assert(full.len() >= p.len());
                }
                return out;
            }
            let ghost o0 = strs_view(out@);
            let mut s = rs[i].clone();
            s.append(alts[j].as_str());
            out.push(s);
            proof {
                assert(av.take(j + 1) =~= av.take(j as int).push(av[j as int]));
                assert(strs_view(out@) =~= o0.push(rv[i as int] + av[j as int]));
                assert(row(rv[i as int], av.take(j + 1)) =~= row(rv[i as int], av.take(j as int)).push(rv[i as int] + av[j as int]));
            }
            j += 1;
        }
        assert(av.take(alts.len() as int) =~= av);
        if out.len() >= MAX_RECURSIVE_EXPANSIONS {
            proof {
                let p = strs_view(out@);
                lemma_cross_prefix(rv, av, i as int + 1);
                assert(cross(rv, av).take(p.len() as int) == p);
            }
            return out;
        }
        i += 1;
    }
    assert(rv.take(rs.len() as int) =~= rv);
    out
}

/// Appends `t` to every result.
fn append_all_exec(rs: &mut Vec<String>, t: &str)
    ensures
        strs_view(final(rs)@) == append_all(strs_view(old(rs)@), t@),
{
    let ghost r0 = strs_view(rs@);
    let mut i: usize = 0;
    while i < rs.len()
        invariant
            i <= rs.len(),
            rs@.len() == r0.len(),
            forall|n: int| 0 <= n < i ==> #[trigger] rs@[n]@ == r0[n] + t@,
            forall|n: int| i <= n < rs@.len() ==> #[trigger] rs@[n]@ == r0[n],
        decreases rs.len() - i,
    {
        let mut s = rs[i].clone();
        s.append(t);
        rs.set(i, s);
        i += 1;
    }
    assert(strs_view(rs@) =~= append_all(r0, t@));
}

} // verus!

verus! {

/// Expands `#n` markers like [`expand`], with `#4` (recursive numeric
/// conversion) replaced by every answer of `lookup` for its run.  Several
/// `#4` markers combine as a cartesian product (earlier markers vary
/// slowest), cut off after [`MAX_RECURSIVE_EXPANSIONS`] entries.  A run
/// shortage, an unrepresentable conversion or an empty answer gives an
/// empty list; unknown markers keep their `#`.  `lookup` is asked once
/// per `#4` marker reached, with that marker's run, and its answers are
/// substituted literally.
pub fn expand_with_recursive_lookup<F: Fn(&str) -> Vec<String>>(
    candidate_word: &str,
    runs: &[String],
    lookup: &F,
) -> (r: Vec<String>)
    requires
        forall|a: &str| #[trigger] call_requires(*lookup, (a,)),
    ensures
        r@.len() <= MAX_RECURSIVE_EXPANSIONS,
        exists|outs: Seq<(Seq<char>, Seq<Seq<char>>)>| {
            &&& forall|j: int| 0 <= j < outs.len() ==> #[trigger] lookup_gave(*lookup, outs[j].0, outs[j].1)
            &&& rec_run(candidate_word@, 0, strs_view(runs@), outs, seq![Seq::<char>::empty()], 0, 0) == Some(strs_view(r@))
        },
{
    let cs = chars_of(candidate_word);
    let ghost rv = strs_view(runs@);
    let ghost w = candidate_word@;
    let mut results: Vec<String> = vec![String::new()];
    let ghost mut outs: Seq<(Seq<char>, Seq<Seq<char>>)> = Seq::empty();
    let mut i: usize = 0;
    let mut run_index: usize = 0;
    proof {
        assert(strs_view(results@) =~= seq![Seq::<char>::empty()]);
        assert forall|o: Seq<(Seq<char>, Seq<Seq<char>>)>| #![trigger outs + o]
            rec_run(w, 0, rv, outs + o, strs_view(results@), 0, outs.len() as int)
                == rec_run(w, 0, rv, outs + o, seq![Seq::<char>::empty()], 0, 0) by {
        }
    }
    while i < cs.len()
        invariant
            i <= cs.len(),
            cs@ == w,
            w == candidate_word@,
            rv == strs_view(runs@),
            forall|a: &str| #[trigger] call_requires(*lookup, (a,)),
            forall|j: int| 0 <= j < outs.len() ==> #[trigger] lookup_gave(*lookup, outs[j].0, outs[j].1),
            results@.len() <= MAX_RECURSIVE_EXPANSIONS,
            forall|o: Seq<(Seq<char>, Seq<Seq<char>>)>| #![trigger outs + o]
                rec_run(w, i as int, rv, outs + o, strs_view(results@), run_index as int, outs.len() as int)
                    == rec_run(w, 0, rv, outs + o, seq![Seq::<char>::empty()], 0, 0),
        decreases cs.len() - i,
    {
        let ch = cs[i];
        let ghost r0 = strs_view(results@);
        let ghost k0 = run_index as int;
        let ghost o0 = outs;
        if ch == '#' && i + 1 < cs.len() && cs[i + 1] == '4' {
            if run_index >= runs.len() {
                proof {
                    assert(rec_run(w, i as int, rv, outs + Seq::empty(), r0, k0, outs.len() as int) == Some(Seq::<Seq<char>>::empty()));
                    assert(outs + Seq::<(Seq<char>, Seq<Seq<char>>)>::empty() =~= outs);
                }
                let r: Vec<String> = Vec::new();
                assert(strs_view(r@) =~= Seq::<Seq<char>>::empty());
                return r;
            }
            let key: &str = runs[run_index].as_str();
            let alts = lookup(key);
            let ghost pair = (key@, strs_view(alts@));
            proof {
                assert(lookup_gave(*lookup, pair.0, pair.1));
                outs = outs.push(pair);
                assert forall|j: int| 0 <= j < outs.len() implies #[trigger] lookup_gave(*lookup, outs[j].0, outs[j].1) by {
                    if j < o0.len() {
                        assert(outs[j] == o0[j]);
                    }
                }
            }
            if alts.len() == 0 {
                proof {
                    assert(o0 + seq![pair] =~= outs);
                    assert(outs + Seq::<(Seq<char>, Seq<Seq<char>>)>::empty() =~= outs);
                    assert(rec_run(w, i as int, rv, o0 + seq![pair], r0, k0, o0.len() as int) == Some(Seq::<Seq<char>>::empty()));
                }
                let r: Vec<String> = Vec::new();
                assert(strs_view(r@) =~= Seq::<Seq<char>>::empty());
                return r;
            }
            results = cross_cap_exec(&results, &alts);
            run_index += 1;
            proof {
                assert forall|o: Seq<(Seq<char>, Seq<Seq<char>>)>| #![trigger outs + o]
                    rec_run(w, i + 2, rv, outs + o, strs_view(results@), run_index as int, outs.len() as int)
                        == rec_run(w, 0, rv, outs + o, seq![Seq::<char>::empty()], 0, 0) by {
                    let o1 = seq![pair] + o;
                    assert(o0 + o1 =~= outs + o);
                    assert((o0 + o1)[o0.len() as int] == pair);
                    assert(rec_run(w, i as int, rv, o0 + o1, r0, k0, o0.len() as int)
                        == rec_run(w, i + 2, rv, o0 + o1, strs_view(results@), k0 + 1, o0.len() as int + 1));
                }
            }
            i += 2;
        } else {
            let marker = if ch == '#' && i + 1 < cs.len() {
                NumType::from_marker(cs[i + 1])
            } else {
                None
            };
            match marker {
                Some(ty) => {
                    let converted = if run_index < runs.len() {
                        convert(runs[run_index].as_str(), ty)
                    } else {
                        None
                    };
                    match converted {
                        Some(c) => {
                            append_all_exec(&mut results, c.as_str());
                            run_index += 1;
                            proof {
                                assert forall|o: Seq<(Seq<char>, Seq<Seq<char>>)>| #![trigger outs + o]
                                    rec_run(w, i + 2, rv, outs + o, strs_view(results@), run_index as int, outs.len() as int)
                                        == rec_run(w, 0, rv, outs + o, seq![Seq::<char>::empty()], 0, 0) by {
                                    assert(rec_run(w, i as int, rv, outs + o, r0, k0, outs.len() as int)
                                        == rec_run(w, i + 2, rv, outs + o, strs_view(results@), k0 + 1, outs.len() as int));
                                }
                            }
                            i += 2;
                        },
                        None => {
                            proof {
                                assert(outs + Seq::<(Seq<char>, Seq<Seq<char>>)>::empty() =~= outs);
                                assert(rec_run(w, i as int, rv, outs + Seq::empty(), r0, k0, outs.len() as int) == Some(Seq::<Seq<char>>::empty()));
                            }
                            let r: Vec<String> = Vec::new();
                            assert(strs_view(r@) =~= Seq::<Seq<char>>::empty());
                            return r;
                        },
                    }
                },
                None => {
                    append_all_exec(&mut results, char_to_string(ch).as_str());
                    proof {
                        assert forall|o: Seq<(Seq<char>, Seq<Seq<char>>)>| #![trigger outs + o]
                            rec_run(w, i + 1, rv, outs + o, strs_view(results@), run_index as int, outs.len() as int)
                                == rec_run(w, 0, rv, outs + o, seq![Seq::<char>::empty()], 0, 0) by {
                            assert(rec_run(w, i as int, rv, outs + o, r0, k0, outs.len() as int)
                                == rec_run(w, i + 1, rv, outs + o, strs_view(results@), k0, outs.len() as int));
                        }
                    }
                    i += 1;
                },
            }
        }
    }
    proof {
        assert(outs + Seq::<(Seq<char>, Seq<Seq<char>>)>::empty() =~= outs);
        assert(rec_run(w, i as int, rv, outs + Seq::empty(), strs_view(results@), run_index as int, outs.len() as int) == Some(strs_view(results@)));
    }
    results
}

} // verus!

verus! {

/// Whether `w` holds a `#4` marker.
pub open spec fn has_recursive_marker(w: Seq<char>) -> bool {
    exists|p: int| 0 <= p && p + 1 < w.len() && #[trigger] w[p] == '#' && w[p + 1] == '4'
}

proof fn lemma_no_marker_from(w: Seq<char>, i: int, runs: Seq<Seq<char>>, outs: Seq<(Seq<char>, Seq<Seq<char>>)>, rs: Seq<Seq<char>>, k: int, j: int)
    requires
        !has_recursive_marker(w),
        0 <= i,
    ensures
        rec_run(w, i, runs, outs, rs, k, j) == (if j == outs.len() {
            Some(match expand_from(w, i, runs, k) {
                Some(s) => append_all(rs, s),
                None => Seq::empty(),
            })
        } else {
            None
        }),
    decreases w.len() - i,
{
    if i >= w.len() {
        assert(append_all(rs, Seq::empty()) =~= rs);
    } else if w[i] == '#' && i + 1 < w.len() && w[i + 1] == '4' {
        assert(has_recursive_marker(w));
    } else if w[i] == '#' && i + 1 < w.len() && spec_from_marker(w[i + 1]) is Some {
        let ty = spec_from_marker(w[i + 1]).unwrap();
        if 0 <= k < runs.len() && spec_convert(runs[k], ty) is Some {
            let c = spec_convert(runs[k], ty).unwrap();
            lemma_no_marker_from(w, i + 2, runs, outs, append_all(rs, c), k + 1, j);
            match expand_from(w, i + 2, runs, k + 1) {
                Some(t) => {
                    assert(append_all(append_all(rs, c), t) =~= append_all(rs, c + t)) by {
                        assert forall|n: int| 0 <= n < rs.len() implies rs[n] + c + t =~= rs[n] + (c + t) by {}
                    }
                },
                None => {},
            }
        }
    } else {
        lemma_no_marker_from(w, i + 1, runs, outs, append_all(rs, seq![w[i]]), k, j);
        match expand_from(w, i + 1, runs, k) {
            Some(t) => {
                assert(append_all(append_all(rs, seq![w[i]]), t) =~= append_all(rs, seq![w[i]] + t)) by {
                    assert forall|n: int| 0 <= n < rs.len() implies rs[n] + seq![w[i]] + t =~= rs[n] + (seq![w[i]] + t) by {}
                }
            },
            None => {},
        }
    }
}

/// Whether `x` is one of `rs` followed by one of `alts`.
pub open spec fn is_combination(x: Seq<char>, rs: Seq<Seq<char>>, alts: Seq<Seq<char>>) -> bool {
    exists|a: int, b: int| 0 <= a < rs.len() && 0 <= b < alts.len() && x == #[trigger] rs[a] + #[trigger] alts[b]
}

proof fn lemma_cross_whole(rs: Seq<Seq<char>>, alts: Seq<Seq<char>>)
    ensures
        forall|n: int| 0 <= n < cross(rs, alts).len() ==> is_combination(#[trigger] cross(rs, alts)[n], rs, alts),
    decreases rs.len(),
{
    if rs.len() > 0 {
        let pre = rs.drop_last();
        lemma_cross_whole(pre, alts);
        let c0 = cross(pre, alts);
        let r = row(rs.last(), alts);
        assert forall|n: int| 0 <= n < cross(rs, alts).len() implies is_combination(#[trigger] cross(rs, alts)[n], rs, alts) by {
            if n < c0.len() {
                assert(cross(rs, alts)[n] == c0[n]);
                assert(is_combination(c0[n], pre, alts));
                let (a, b) = choose|a: int, b: int| 0 <= a < pre.len() && 0 <= b < alts.len() && c0[n] == #[trigger] pre[a] + #[trigger] alts[b];
                assert(rs[a] == pre[a]);
                assert(cross(rs, alts)[n] == rs[a] + alts[b]);
            } else {
                let b = n - c0.len();
                assert(cross(rs, alts)[n] == r[b]);
                assert(cross(rs, alts)[n] == rs[rs.len() - 1] + alts[b]);
            }
        }
    }
}

/// The capped recursive expansion keeps at most
/// [`MAX_RECURSIVE_EXPANSIONS`] results, each of them a whole combination:
/// one of the results so far followed by one whole alternative of the
/// lookup.
pub proof fn lemma_cross_cap_whole(rs: Seq<Seq<char>>, alts: Seq<Seq<char>>)
    ensures
        cross_cap(rs, alts).len() <= MAX_RECURSIVE_EXPANSIONS,
        forall|n: int| 0 <= n < cross_cap(rs, alts).len() ==> is_combination(#[trigger] cross_cap(rs, alts)[n], rs, alts),
{
    lemma_cross_whole(rs, alts);
    let c = cross(rs, alts);
    assert forall|n: int| 0 <= n < cross_cap(rs, alts).len() implies is_combination(#[trigger] cross_cap(rs, alts)[n], rs, alts) by {
        assert(cross_cap(rs, alts)[n] == c[n]);
    }
}

/// Recursive expansion never gives more than [`MAX_RECURSIVE_EXPANSIONS`]
/// results when it starts from no more than that.
pub proof fn lemma_rec_run_capped(
    w: Seq<char>,
    i: int,
    runs: Seq<Seq<char>>,
    outs: Seq<(Seq<char>, Seq<Seq<char>>)>,
    rs: Seq<Seq<char>>,
    k: int,
    j: int,
)
    requires
        rs.len() <= MAX_RECURSIVE_EXPANSIONS,
    ensures
        rec_run(w, i, runs, outs, rs, k, j) matches Some(out) ==> out.len() <= MAX_RECURSIVE_EXPANSIONS,
    decreases w.len() - i,
{
    if i < 0 || i >= w.len() {
    } else if w[i] == '#' && i + 1 < w.len() && w[i + 1] == '4' {
        if k < 0 || k >= runs.len() {
        } else if j < 0 || j >= outs.len() || outs[j].0 != runs[k] {
        } else if outs[j].1.len() == 0 {
        } else {
            lemma_cross_cap_whole(rs, outs[j].1);
            lemma_rec_run_capped(w, i + 2, runs, outs, cross_cap(rs, outs[j].1), k + 1, j + 1);
        }
    } else if w[i] == '#' && i + 1 < w.len() && spec_from_marker(w[i + 1]) is Some {
        if 0 <= k < runs.len() && spec_convert(runs[k], spec_from_marker(w[i + 1]).unwrap()) is Some {
            lemma_rec_run_capped(w, i + 2, runs, outs, append_all(rs, spec_convert(runs[k], spec_from_marker(w[i + 1]).unwrap()).unwrap()), k + 1, j);
        }
    } else {
        lemma_rec_run_capped(w, i + 1, runs, outs, append_all(rs, seq![w[i]]), k, j);
    }
}

/// Without a `#4` marker, recursive expansion consults no lookup and gives
/// what [`expand`] gives, as a list of one, or nothing where `expand` fails.
pub proof fn lemma_no_recursive_marker_is_expand(w: Seq<char>, runs: Seq<Seq<char>>, outs: Seq<(Seq<char>, Seq<Seq<char>>)>)
    requires
        !has_recursive_marker(w),
    ensures
        rec_run(w, 0, runs, outs, seq![Seq::<char>::empty()], 0, 0) == (if outs.len() == 0 {
            Some(match expand_from(w, 0, runs, 0) {
                Some(s) => seq![s],
                None => Seq::empty(),
            })
        } else {
            None
        }),
{
    lemma_no_marker_from(w, 0, runs, outs, seq![Seq::<char>::empty()], 0, 0);
    match expand_from(w, 0, runs, 0) {
        Some(s) => {
            assert(append_all(seq![Seq::<char>::empty()], s) =~= seq![s]) by {
                assert(Seq::<char>::empty() + s =~= s);
            }
        },
        None => {},
    }
}

} // verus!
