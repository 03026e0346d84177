//! Text format of kana conversion tables.
//!
//! A table file has sections `[meta]`, `[trans]`, `[trans.katakana]` and
//! `[okuri_alias]`.  `#` starts a comment unless escaped; `\#`, `\*` and `\\`
//! are the only escapes.  Transition lines hold 3 or 4 tab-separated fields
//! `from input to [output]`; alias lines hold 2 fields `from to`.

use vstd::prelude::*;

use crate::kana::table::{rules_of, KanaInput, KanaTable, KanaTransition, TransitionRule};
use crate::text::{chars_of, string_from_chars};

verus! {

/// Error of a kana table parse.
#[derive(Debug)]
pub enum KanaTableError {
    /// The text is malformed at 1-based line `line`.
    Parse { line: usize, message: String },
    /// The table file could not be read; the message says why.
    Io(String),
}

/// Section of a table file.
#[derive(PartialEq, Eq, Structural, Clone, Copy)]
pub enum Section {
    Preamble,
    Meta,
    Trans,
    TransKatakana,
    OkuriAlias,
}

/// What a parse has collected so far.
pub struct ParseState {
    pub section: Section,
    pub trans: Seq<TransitionRule>,
    pub kata: Seq<TransitionRule>,
    pub aliases: Seq<(char, char)>,
}

// ── Specification ────────────────────────────────────────────────────────────

/// Splitting at `'\n'`: the finished lines and the line in progress.
pub open spec fn split_acc(s: Seq<char>) -> (Seq<Seq<char>>, Seq<char>)
    decreases s.len(),
{
    if s.len() == 0 {
        (Seq::empty(), Seq::empty())
    } else {
        let (ls, cur) = split_acc(s.drop_last());
        if s.last() == '\n' {
            (ls.push(cur), Seq::empty())
        } else {
            (ls, cur.push(s.last()))
        }
    }
}

/// The lines of `s` (pieces between `'\n'`).
pub open spec fn split_lines(s: Seq<char>) -> Seq<Seq<char>> {
    split_acc(s).0.push(split_acc(s).1)
}

/// Position of the first unescaped `#` at or after `i` (with `escaped`
/// telling whether the character at `i` follows an unpaired backslash).
pub open spec fn comment_from(s: Seq<char>, i: int, escaped: bool) -> Option<int>
    decreases s.len() - i,
{
    if i >= s.len() || i < 0 {
        None
    } else if escaped {
        comment_from(s, i + 1, false)
    } else if s[i] == '\\' {
        comment_from(s, i + 1, true)
    } else if s[i] == '#' {
        Some(i)
    } else {
        comment_from(s, i + 1, false)
    }
}

/// Whether `c` is dropped from the end of a line.
pub open spec fn is_trailing_blank(c: char) -> bool {
    c == ' ' || c == '\t' || c == '\r' || c == '\n'
}

/// `s` without trailing blanks.
pub open spec fn trim_end_blanks(s: Seq<char>) -> Seq<char>
    decreases s.len(),
{
    if s.len() > 0 && is_trailing_blank(s.last()) {
        trim_end_blanks(s.drop_last())
    } else {
        s
    }
}

/// The meaningful part of a raw line: comment removed, trailing blanks trimmed.
pub open spec fn clean_line(raw: Seq<char>) -> Seq<char> {
    let body = match comment_from(raw, 0, false) {
        Some(p) => raw.take(p),
        None => raw,
    };
    trim_end_blanks(body)
}

/// Resolves the escapes `\#`, `\*` and `\\`; `None` for any other escape or
/// a trailing backslash.
pub open spec fn unescape_seq(s: Seq<char>) -> Option<Seq<char>>
    decreases s.len(),
{
    if s.len() == 0 {
        Some(Seq::empty())
    } else if s[0] == '\\' {
        if s.len() == 1 {
            None
        } else if s[1] == '#' || s[1] == '*' || s[1] == '\\' {
            match unescape_seq(s.skip(2)) {
                Some(r) => Some(seq![s[1]] + r),
                None => None,
            }
        } else {
            None
        }
    } else {
        match unescape_seq(s.skip(1)) {
            Some(r) => Some(seq![s[0]] + r),
            None => None,
        }
    }
}

/// The input field: bare `*` is the wildcard, otherwise exactly one
/// (unescaped) character.
pub open spec fn input_spec(s: Seq<char>) -> Option<KanaInput> {
    if s == seq!['*'] {
        Some(KanaInput::Wildcard)
    } else {
        match unescape_seq(s) {
            Some(u) => if u.len() == 1 { Some(KanaInput::Char(u[0])) } else { None },
            None => None,
        }
    }
}

/// Index of the first `c` in `s` at or after `from`.
pub open spec fn find_from(s: Seq<char>, c: char, from: int) -> Option<int>
    decreases s.len() - from,
{
    if from >= s.len() || from < 0 {
        None
    } else if s[from] == c {
        Some(from)
    } else {
        find_from(s, c, from + 1)
    }
}

/// Split at the first `n - 1` tabs (like `splitn(n, '\t')`), starting at `from`.
pub open spec fn splitn_tab(s: Seq<char>, n: nat, from: int) -> Seq<Seq<char>>
    decreases n,
{
    if n <= 1 {
        seq![s.subrange(from, s.len() as int)]
    } else {
        match find_from(s, '\t', from) {
            Some(p) => seq![s.subrange(from, p)] + splitn_tab(s, (n - 1) as nat, p + 1),
            None => seq![s.subrange(from, s.len() as int)],
        }
    }
}

/// A transition line, or `None` when it is malformed.
pub open spec fn trans_line(line: Seq<char>) -> Option<TransitionRule> {
    let f = splitn_tab(line, 4, 0);
    if f.len() < 3 {
        None
    } else {
        let out_field = if f.len() == 4 { f[3] } else { Seq::empty() };
        match (unescape_seq(f[0]), input_spec(f[1]), unescape_seq(f[2]), unescape_seq(out_field)) {
            (Some(from), Some(input), Some(to), Some(output)) => Some(
                TransitionRule { from, input, to, output },
            ),
            _ => None,
        }
    }
}

/// An alias line, or `None` when it is malformed.
pub open spec fn alias_line(line: Seq<char>) -> Option<(char, char)> {
    let f = splitn_tab(line, 2, 0);
    if f.len() != 2 {
        None
    } else {
        match (input_spec(f[0]), input_spec(f[1])) {
            (Some(KanaInput::Char(a)), Some(KanaInput::Char(b))) => Some((a, b)),
            _ => None,
        }
    }
}

/// The section a header line selects, if it is a known header.
pub open spec fn header_section(line: Seq<char>) -> Option<Section> {
    if line == "[meta]"@ {
        Some(Section::Meta)
    } else if line == "[trans]"@ {
        Some(Section::Trans)
    } else if line == "[trans.katakana]"@ {
        Some(Section::TransKatakana)
    } else if line == "[okuri_alias]"@ {
        Some(Section::OkuriAlias)
    } else {
        None
    }
}

/// Effect of one raw line (1-based number `n`) on the parse state;
/// `Err(n)` when the line is malformed.
pub open spec fn parse_step(st: ParseState, raw: Seq<char>, n: nat) -> Result<ParseState, nat> {
    let line = clean_line(raw);
    if line.len() == 0 {
        Ok(st)
    } else if line[0] == '[' {
        match header_section(line) {
            Some(sec) => Ok(ParseState { section: sec, ..st }),
            None => Err(n),
        }
    } else {
        match st.section {
            Section::Preamble => Err(n),
            Section::Meta => Ok(st),
            Section::Trans => match trans_line(line) {
                Some(t) => Ok(ParseState { trans: st.trans.push(t), ..st }),
                None => Err(n),
            },
            Section::TransKatakana => match trans_line(line) {
                Some(t) => Ok(ParseState { kata: st.kata.push(t), ..st }),
                None => Err(n),
            },
            Section::OkuriAlias => match alias_line(line) {
                Some(a) => Ok(ParseState { aliases: st.aliases.push(a), ..st }),
                None => Err(n),
            },
        }
    }
}

/// State before any line.
pub open spec fn initial_state() -> ParseState {
    ParseState { section: Section::Preamble, trans: Seq::empty(), kata: Seq::empty(), aliases: Seq::empty() }
}

/// Parse of the first `n` lines; `Err(line)` names the first malformed line.
pub open spec fn parse_upto(lines: Seq<Seq<char>>, n: nat) -> Result<ParseState, nat>
    decreases n,
{
    if n == 0 {
        Ok(initial_state())
    } else {
        match parse_upto(lines, (n - 1) as nat) {
            Ok(st) => parse_step(st, lines[n - 1], n),
            Err(l) => Err(l),
        }
    }
}

/// Parse of a whole table text.
pub open spec fn spec_parse_table(src: Seq<char>) -> Result<ParseState, nat> {
    let lines = split_lines(src);
    parse_upto(lines, lines.len())
}

// ── Implementation ───────────────────────────────────────────────────────────

/// `r` is what parsing `src` gives: the table of its rules, or an error
/// at the line where the text is malformed.
pub open spec fn table_outcome(src: Seq<char>, r: Result<KanaTable, KanaTableError>) -> bool {
    match spec_parse_table(src) {
        Ok(st) => r matches Ok(t) && t.spec_transitions() == st.trans && t.spec_kata_overrides() == st.kata
            && t.spec_aliases() == st.aliases,
        Err(line) => r matches Err(KanaTableError::Parse { line: l, .. }) && l == line,
    }
}

/// Parses a kana conversion table from its text source and returns a `KanaTable`.
pub fn parse_table(src: &str) -> (r: Result<KanaTable, KanaTableError>)
    ensures
        table_outcome(src@, r),
{
    let cs = chars_of(src);
    let lines = split_lines_exec(&cs);
    let mut transitions: Vec<KanaTransition> = Vec::new();
    let mut kata_overrides: Vec<KanaTransition> = Vec::new();
    let mut okuri_aliases: Vec<(char, char)> = Vec::new();
    let mut section = Section::Preamble;
    let mut i: usize = 0;
    assert(rules_of(transitions@) =~= Seq::<TransitionRule>::empty());
    assert(rules_of(kata_overrides@) =~= Seq::<TransitionRule>::empty());
    assert(okuri_aliases@ =~= Seq::<(char, char)>::empty());
    while i < lines.len()
        invariant
            i <= lines.len(),
            lines_view(lines@) == split_lines(src@),
            parse_upto(split_lines(src@), i as nat) == Ok::<ParseState, nat>(ParseState {
                section,
                trans: rules_of(transitions@),
                kata: rules_of(kata_overrides@),
                aliases: okuri_aliases@,
            }),
        decreases lines.len() - i,
    {
        let line_num = i + 1;
        let ghost raw = lines@[i as int]@;
        assert(lines_view(lines@)[i as int] == raw);
        let line = clean_line_exec(&lines[i]);
        if line.len() == 0 {
            i += 1;
            continue;
        }
        if line[0] == '[' {
            match header_section_exec(&line) {
                Some(sec) => {
                    section = sec;
                    i += 1;
                    continue;
                },
                None => {
                    let mut message = "unknown section: ".to_owned();
                    message.append(string_from_chars(&line).as_str());
                    proof { lemma_err_propagates(split_lines(src@), (i + 1) as nat, split_lines(src@).len()); }
                    return Err(KanaTableError::Parse { line: line_num, message });
                },
            }
        }
        match section {
            Section::Preamble => {
                proof { lemma_err_propagates(split_lines(src@), (i + 1) as nat, split_lines(src@).len()); }
                return Err(KanaTableError::Parse {
                    line: line_num,
                    message: "content before any section header".to_owned(),
                });
            },
            Section::Meta => {},
            Section::Trans | Section::TransKatakana => {
                match parse_trans_line(&line, line_num) {
                    Ok(t) => {
                        if section == Section::Trans {
                            let ghost old = transitions@;
                            transitions.push(t);
                            assert(rules_of(transitions@) =~= rules_of(old).push(transitions@.last()@));
                        } else {
                            let ghost old = kata_overrides@;
                            kata_overrides.push(t);
                            assert(rules_of(kata_overrides@) =~= rules_of(old).push(kata_overrides@.last()@));
                        }
                    },
                    Err(e) => {
                        proof { lemma_err_propagates(split_lines(src@), (i + 1) as nat, split_lines(src@).len()); }
                        return Err(e);
                    },
                }
            },
            Section::OkuriAlias => {
                match parse_okuri_alias_line(&line, line_num) {
                    Ok(pair) => {
                        okuri_aliases.push(pair);
                    },
                    Err(e) => {
                        proof { lemma_err_propagates(split_lines(src@), (i + 1) as nat, split_lines(src@).len()); }
                        return Err(e);
                    },
                }
            },
        }
        i += 1;
    }
    Ok(KanaTable::new(transitions, kata_overrides, okuri_aliases))
}

/// Once a line is malformed, the parse of any longer prefix fails at that line.
pub proof fn lemma_err_propagates(lines: Seq<Seq<char>>, k: nat, n: nat)
    requires
        k <= n,
        parse_upto(lines, k) is Err,
    ensures
        parse_upto(lines, n) == parse_upto(lines, k),
    decreases n - k,
{
    if k < n {
        lemma_err_propagates(lines, k, (n - 1) as nat);
    }
}

/// Views of a list of lines.
pub open spec fn lines_view(v: Seq<Vec<char>>) -> Seq<Seq<char>> {
    v.map_values(|l: Vec<char>| l@)
}

/// Splits at every `'\n'`.
pub(crate) fn split_lines_exec(cs: &Vec<char>) -> (r: Vec<Vec<char>>)
    ensures
        lines_view(r@) == split_lines(cs@),
{
    let mut done: Vec<Vec<char>> = Vec::new();
    let mut cur: Vec<char> = Vec::new();
    let mut i: usize = 0;
    while i < cs.len()
        invariant
            i <= cs.len(),
            (lines_view(done@), cur@) == split_acc(cs@.take(i as int)),
        decreases cs.len() - i,
    {
        assert(cs@.take(i + 1).drop_last() =~= cs@.take(i as int));
        if cs[i] == '\n' {
            let ghost old = done@;
            done.push(cur);
            cur = Vec::new();
            assert(lines_view(done@) =~= lines_view(old).push(old_cur_view(done@)));
        } else {
            cur.push(cs[i]);
        }
        i += 1;
    }
    assert(cs@.take(cs.len() as int) =~= cs@);
    let ghost old = done@;
    done.push(cur);
    assert(lines_view(done@) =~= lines_view(old).push(done@.last()@));
    done
}

spec fn old_cur_view(done: Seq<Vec<char>>) -> Seq<char> {
    done.last()@
}

/// Returns the position of the first unescaped `#` in `raw`, or `None`.
/// A `#` preceded by an odd number of `\` characters is considered escaped and skipped.
fn find_comment_start(raw: &Vec<char>) -> (r: Option<usize>)
    ensures
        match comment_from(raw@, 0, false) {
            Some(p) => r == Some(p as usize),
            None => r is None,
        },
{
    let mut escaped = false;
    let mut i: usize = 0;
    while i < raw.len()
        invariant
            i <= raw.len(),
            comment_from(raw@, 0, false) == comment_from(raw@, i as int, escaped),
        decreases raw.len() - i,
    {
        if escaped {
            escaped = false;
        } else if raw[i] == '\\' {
            escaped = true;
        } else if raw[i] == '#' {
            return Some(i);
        }
        i += 1;
    }
    None
}

/// The meaningful part of a raw line.
fn clean_line_exec(raw: &Vec<char>) -> (r: Vec<char>)
    ensures
        r@ == clean_line(raw@),
{
    let end = match find_comment_start(raw) {
        Some(p) => p,
        None => raw.len(),
    };
    proof {
        if let Some(p) = comment_from(raw@, 0, false) {
            lemma_comment_in_range(raw@, 0, false);
        }
    }
    let mut n = end;
    while n > 0 && is_trailing_blank_exec(raw[n - 1])
        invariant
            n <= end <= raw.len(),
            trim_end_blanks(raw@.take(end as int)) == trim_end_blanks(raw@.take(n as int)),
        decreases n,
    {
        assert(raw@.take(n as int).drop_last() =~= raw@.take(n - 1));
        n -= 1;
    }
    let r = prefix_vec(raw, n);
    proof {
        if comment_from(raw@, 0, false) is None {
            assert(raw@.take(end as int) =~= raw@);
        }
    }
    r
}

proof fn lemma_comment_in_range(s: Seq<char>, i: int, escaped: bool)
    requires
        0 <= i,
    ensures
        comment_from(s, i, escaped) matches Some(p) ==> i <= p < s.len() && s[p] == '#',
    decreases s.len() - i,
{
    if i < s.len() {
        lemma_comment_in_range(s, i + 1, false);
        lemma_comment_in_range(s, i + 1, true);
    }
}

fn is_trailing_blank_exec(c: char) -> (r: bool)
    ensures
        r == is_trailing_blank(c),
{
    c == ' ' || c == '\t' || c == '\r' || c == '\n'
}

/// The first `n` characters of `v`.
pub fn prefix_vec(v: &Vec<char>, n: usize) -> (r: Vec<char>)
    requires
        n <= v.len(),
    ensures
        r@ == v@.take(n as int),
{
    subrange_vec(v, 0, n)
}

/// The characters of `v` in `[from, to)`.
pub fn subrange_vec(v: &Vec<char>, from: usize, to: usize) -> (r: Vec<char>)
    requires
        from <= to <= v.len(),
    ensures
        r@ == v@.subrange(from as int, to as int),
{
    let mut r: Vec<char> = Vec::new();
    let mut i = from;
    while i < to
        invariant
            from <= i <= to <= v.len(),
            r@ == v@.subrange(from as int, i as int),
        decreases to - i,
    {
        r.push(v[i]);
        assert(v@.subrange(from as int, i + 1) =~= v@.subrange(from as int, i as int).push(v@[i as int]));
        i += 1;
    }
    r
}

/// Whether `v` equals the literal `s`.
fn eq_lit(v: &Vec<char>, s: &str) -> (r: bool)
    ensures
        r == (v@ == s@),
{
    let t = chars_of(s);
    if t.len() != v.len() {
        return false;
    }
    let mut i: usize = 0;
    while i < v.len()
        invariant
            t@ == s@,
            t.len() == v.len(),
            i <= v.len(),
            forall|j: int| 0 <= j < i ==> v@[j] == t@[j],
        decreases v.len() - i,
    {
        if v[i] != t[i] {
            return false;
        }
        i += 1;
    }
    assert(v@ =~= t@);
    true
}

fn header_section_exec(line: &Vec<char>) -> (r: Option<Section>)
    ensures
        r == header_section(line@),
{
    if eq_lit(line, "[meta]") {
        Some(Section::Meta)
    } else if eq_lit(line, "[trans]") {
        Some(Section::Trans)
    } else if eq_lit(line, "[trans.katakana]") {
        Some(Section::TransKatakana)
    } else if eq_lit(line, "[okuri_alias]") {
        Some(Section::OkuriAlias)
    } else {
        None
    }
}

/// Resolves backslash escape sequences in a field string.
///
/// Supported escapes:
/// - `\#`  → `#`
/// - `\*`  → `*`
/// - `\\`  → `\`
///
/// Any other `\x` sequence is an error, as is a trailing bare `\`.
fn unescape(s: &Vec<char>, line_num: usize) -> (r: Result<Vec<char>, KanaTableError>)
    ensures
        match unescape_seq(s@) {
            Some(u) => r matches Ok(v) && v@ == u,
            None => r matches Err(KanaTableError::Parse { line: l, .. }) && l == line_num,
        },
{
    let mut out: Vec<char> = Vec::new();
    let mut i: usize = 0;
    assert(s@.skip(0) =~= s@);
    proof {
        if let Some(rest) = unescape_seq(s@) {
            assert(Seq::<char>::empty() + rest =~= rest);
        }
    }
    while i < s.len()
        invariant
            i <= s.len(),
            unescape_seq(s@) == match unescape_seq(s@.skip(i as int)) {
                Some(rest) => Some(out@ + rest),
                None => None::<Seq<char>>,
            },
        decreases s.len() - i,
    {
        let ghost rest = s@.skip(i as int);
        let c = s[i];
        if c == '\\' {
            if i + 1 >= s.len() {
                return Err(KanaTableError::Parse {
                    line: line_num,
                    message: "trailing backslash in field".to_owned(),
                });
            }
            let d = s[i + 1];
            if d == '#' || d == '*' || d == '\\' {
                assert(rest.skip(2) =~= s@.skip(i + 2));
                proof { lemma_assoc_push(out@, d, unescape_seq(s@.skip(i + 2))); }
                out.push(d);
                i += 2;
            } else {
                let mut message = "unknown escape sequence: \\".to_owned();
                crate::text::push_char(&mut message, d);
                return Err(KanaTableError::Parse { line: line_num, message });
            }
        } else {
            assert(rest.skip(1) =~= s@.skip(i + 1));
            proof { lemma_assoc_push(out@, c, unescape_seq(s@.skip(i + 1))); }
            out.push(c);
            i += 1;
        }
    }
    assert(s@.skip(s.len() as int) =~= Seq::<char>::empty());
    assert(out@ + Seq::<char>::empty() =~= out@);
    Ok(out)
}

proof fn lemma_assoc_push(out: Seq<char>, c: char, rest: Option<Seq<char>>)
    ensures
        match rest {
            Some(r) => Some(out + (seq![c] + r)),
            None => None::<Seq<char>>,
        } == match rest {
            Some(r) => Some(out.push(c) + r),
            None => None::<Seq<char>>,
        },
{
    if let Some(r) = rest {
        assert(out + (seq![c] + r) =~= out.push(c) + r);
    }
}

/// Parses the input field into a `KanaInput`.
/// - Bare `*` → `KanaInput::Wildcard`
/// - `\*` → `KanaInput::Char('*')` (literal asterisk)
/// - `\#` → `KanaInput::Char('#')` (literal hash)
/// - `\\` → `KanaInput::Char('\\')`
/// - Any other single character → `KanaInput::Char(c)`
fn parse_input_spec(s: &Vec<char>, line_num: usize) -> (r: Result<KanaInput, KanaTableError>)
    ensures
        match input_spec(s@) {
            Some(k) => r == Ok::<KanaInput, KanaTableError>(k),
            None => r matches Err(KanaTableError::Parse { line: l, .. }) && l == line_num,
        },
{
    if s.len() == 1 && s[0] == '*' {
        assert(s@ =~= seq!['*']);
        return Ok(KanaInput::Wildcard);
    }
    assert(s@ != seq!['*']);
    let u = unescape(s, line_num)?;
    if u.len() == 0 {
        return Err(KanaTableError::Parse { line: line_num, message: "input field is empty".to_owned() });
    }
    if u.len() > 1 {
        return Err(KanaTableError::Parse {
            line: line_num,
            message: "input field must be a single character".to_owned(),
        });
    }
    Ok(KanaInput::Char(u[0]))
}

/// Parses the input field into a single `char`.
/// Used for `[okuri_alias]` entries where `KanaInput::Wildcard` is not meaningful.
fn parse_alias_char(s: &Vec<char>, line_num: usize) -> (r: Result<char, KanaTableError>)
    ensures
        match input_spec(s@) {
            Some(KanaInput::Char(c)) => r == Ok::<char, KanaTableError>(c),
            _ => r matches Err(KanaTableError::Parse { line: l, .. }) && l == line_num,
        },
{
    match parse_input_spec(s, line_num)? {
        KanaInput::Char(c) => Ok(c),
        KanaInput::Wildcard => Err(KanaTableError::Parse {
            line: line_num,
            message: "wildcard `*` is not valid in okuri_alias".to_owned(),
        }),
    }
}

/// Views of a list of fields.
pub open spec fn fields_view(v: Seq<Vec<char>>) -> Seq<Seq<char>> {
    v.map_values(|l: Vec<char>| l@)
}

/// `splitn(n, '\t')` on a character vector.
fn splitn_tab_exec(s: &Vec<char>, n: usize) -> (r: Vec<Vec<char>>)
    requires
        n >= 1,
    ensures
        fields_view(r@) == splitn_tab(s@, n as nat, 0),
{
    let mut out: Vec<Vec<char>> = Vec::new();
    let mut from: usize = 0;
    let mut left: usize = n;
    let mut i: usize = 0;
    while i < s.len() && left > 1
        invariant
            0 <= from <= i <= s.len(),
            1 <= left <= n,
            forall|j: int| from <= j < i ==> s@[j] != '\t',
            splitn_tab(s@, n as nat, 0) == fields_view(out@) + splitn_tab(s@, left as nat, from as int),
        decreases s.len() - i,
    {
        if s[i] == '\t' {
            proof {
                lemma_find_from_first(s@, '\t', from as int, i as int);
            }
            let piece = subrange_vec(s, from, i);
            let ghost old = out@;
            out.push(piece);
            assert(fields_view(out@) =~= fields_view(old).push(out@.last()@));
            assert(splitn_tab(s@, left as nat, from as int) =~= seq![s@.subrange(from as int, i as int)]
                + splitn_tab(s@, (left - 1) as nat, i + 1));
            assert(fields_view(old) + (seq![s@.subrange(from as int, i as int)] + splitn_tab(s@, (left - 1) as nat, i + 1))
                =~= fields_view(out@) + splitn_tab(s@, (left - 1) as nat, i + 1));
            left -= 1;
            from = i + 1;
        }
        i += 1;
    }
    proof {
        if left > 1 {
            lemma_find_from_none(s@, '\t', from as int);
        }
    }
    let piece = subrange_vec(s, from, s.len());
    let ghost old = out@;
    out.push(piece);
    assert(fields_view(out@) =~= fields_view(old).push(out@.last()@));
    assert(fields_view(old) + splitn_tab(s@, left as nat, from as int) =~= fields_view(out@));
    out
}

proof fn lemma_find_from_first(s: Seq<char>, c: char, from: int, i: int)
    requires
        0 <= from <= i < s.len(),
        s[i] == c,
        forall|j: int| from <= j < i ==> s[j] != c,
    ensures
        find_from(s, c, from) == Some(i),
    decreases i - from,
{
    if from < i {
        lemma_find_from_first(s, c, from + 1, i);
    }
}

proof fn lemma_find_from_none(s: Seq<char>, c: char, from: int)
    requires
        0 <= from,
        forall|j: int| from <= j < s.len() ==> s[j] != c,
    ensures
        find_from(s, c, from) is None,
    decreases s.len() - from,
{
    if from < s.len() {
        lemma_find_from_none(s, c, from + 1);
    }
}

/// Parses a single line from `[trans]` or `[trans.katakana]`.
/// Format: `from TAB input TAB to [TAB output]` (3 or 4 tab-separated fields)
fn parse_trans_line(line: &Vec<char>, line_num: usize) -> (r: Result<KanaTransition, KanaTableError>)
    ensures
        match trans_line(line@) {
            Some(t) => r matches Ok(v) && v@ == t,
            None => r matches Err(KanaTableError::Parse { line: l, .. }) && l == line_num,
        },
{
    let fields = splitn_tab_exec(line, 4);
    if fields.len() < 3 {
        return Err(KanaTableError::Parse {
            line: line_num,
            message: "expected 3 or 4 tab-separated fields".to_owned(),
        });
    }
    assert(fields_view(fields@)[0] == fields@[0]@);
    assert(fields_view(fields@)[1] == fields@[1]@);
    assert(fields_view(fields@)[2] == fields@[2]@);
    let from = unescape(&fields[0], line_num)?;
    let input = parse_input_spec(&fields[1], line_num)?;
    let to = unescape(&fields[2], line_num)?;
    let empty: Vec<char> = Vec::new();
    let out_field: &Vec<char> = if fields.len() == 4 {
        assert(fields_view(fields@)[3] == fields@[3]@);
        &fields[3]
    } else {
        &empty
    };
    let output = unescape(out_field, line_num)?;
    Ok(KanaTransition {
        from: string_from_chars(&from),
        input,
        to: string_from_chars(&to),
        output: string_from_chars(&output),
    })
}

/// Parses a single line from `[okuri_alias]`.
/// Format: `from TAB to` (2 tab-separated fields)
fn parse_okuri_alias_line(line: &Vec<char>, line_num: usize) -> (r: Result<(char, char), KanaTableError>)
    ensures
        match alias_line(line@) {
            Some(p) => r == Ok::<(char, char), KanaTableError>(p),
            None => r matches Err(KanaTableError::Parse { line: l, .. }) && l == line_num,
        },
{
    let fields = splitn_tab_exec(line, 2);
    if fields.len() != 2 {
        return Err(KanaTableError::Parse {
            line: line_num,
            message: "expected 2 tab-separated fields in okuri_alias".to_owned(),
        });
    }
    assert(fields_view(fields@)[0] == fields@[0]@);
    assert(fields_view(fields@)[1] == fields@[1]@);
    let from = parse_alias_char(&fields[0], line_num)?;
    let to = parse_alias_char(&fields[1], line_num)?;
    Ok((from, to))
}

} // verus!
