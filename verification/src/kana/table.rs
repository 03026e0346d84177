//! Kana conversion tables: a state machine from roman input to kana.

use vstd::prelude::*;

use crate::text::{char_from_scalar, chars_of, str_eq, string_from_chars};

verus! {

/// Input side of a transition rule.
#[derive(Debug, Clone, Copy, PartialEq, Eq, Structural)]
pub enum KanaInput {
    /// A specific input character.
    Char(char),
    /// Matches any character (bare `*` in a table file); the character is
    /// then re-processed from the start state.
    Wildcard,
}

/// A single entry in a kana conversion table.
/// Represents the transition rule `(from, input) → (to, output)`.
#[derive(Debug, Clone)]
pub struct KanaTransition {
    /// Current intermediate state ("" = start state)
    pub from: String,
    /// Input character or wildcard
    pub input: KanaInput,
    /// Next state after transition ("" = return to start state)
    pub to: String,
    /// Output kana string ("" = no output yet)
    pub output: String,
}

/// Mathematical form of a transition rule.
pub struct TransitionRule {
    pub from: Seq<char>,
    pub input: KanaInput,
    pub to: Seq<char>,
    pub output: Seq<char>,
}

impl View for KanaTransition {
    type V = TransitionRule;

    open spec fn view(&self) -> TransitionRule {
        TransitionRule { from: self.from@, input: self.input, to: self.to@, output: self.output@ }
    }
}

/// Kana conversion table.
#[derive(Debug, Clone)]
pub struct KanaTable {
    /// Transition rules from `[trans]` (hiragana output)
    transitions: Vec<KanaTransition>,
    /// Katakana-mode overrides from `[trans.katakana]`
    kata_overrides: Vec<KanaTransition>,
    /// Okurigana dictionary key aliases from `[okuri_alias]` (input_char → alias_char);
    /// a later pair for the same input overrides an earlier one.
    okuri_aliases: Vec<(char, char)>,
}

/// Kana conversion mode
#[derive(Debug, Clone, Copy, PartialEq, Eq, Structural, Hash)]
pub enum KanaMode {
    Hiragana,
    Katakana,
    HalfWidth,
}

/// Built-in kana layout names
#[derive(Debug, Clone, Copy, PartialEq, Eq, Structural, Hash)]
pub enum KanaLayout {
    Romaji,
    AzikUs,
    AzikJp,
    DvorakJpUs,
    DvorakJpJp,
}

/// Result of a state machine transition
#[derive(Debug, Clone, PartialEq, Eq)]
pub enum TransitionResult {
    /// An exact rule matched. `output` holds the kana string (empty if not yet finalized),
    /// `next_state` holds the new state.
    Advance { output: String, next_state: String },
    /// A wildcard rule matched: `output` is emitted, the machine returns to the
    /// start state and `retry` must be processed again from there.
    OkRetry { output: String, retry: char },
    /// No rule matched the current state and input (mistype).
    /// `flush` contains the intermediate buffer to discard (if any).
    /// `retry` contains the input character to re-process from the start state (if any).
    NoMatch { flush: String, retry: Option<char> },
}

/// Mathematical form of a transition result.
pub enum TransitionOutcome {
    Advance { output: Seq<char>, next_state: Seq<char> },
    OkRetry { output: Seq<char>, retry: char },
    NoMatch { flush: Seq<char>, retry: Option<char> },
}

impl View for TransitionResult {
    type V = TransitionOutcome;

    open spec fn view(&self) -> TransitionOutcome {
        match self {
            TransitionResult::Advance { output, next_state } => TransitionOutcome::Advance {
                output: output@,
                next_state: next_state@,
            },
            TransitionResult::OkRetry { output, retry } => TransitionOutcome::OkRetry {
                output: output@,
                retry: *retry,
            },
            TransitionResult::NoMatch { flush, retry } => TransitionOutcome::NoMatch {
                flush: flush@,
                retry: *retry,
            },
        }
    }
}

// ── Specification ────────────────────────────────────────────────────────────

/// Whether two rules have the same left-hand side.
pub open spec fn same_lhs(a: TransitionRule, b: TransitionRule) -> bool {
    a.from == b.from && a.input == b.input
}

/// Whether some rule of `ts` has the left-hand side of `t`.
pub open spec fn has_lhs(ts: Seq<TransitionRule>, t: TransitionRule) -> bool {
    exists|i: int| 0 <= i < ts.len() && same_lhs(#[trigger] ts[i], t)
}

/// Index of the first rule of `ts` whose left-hand side is `(state, input)`.
pub open spec fn first_rule(ts: Seq<TransitionRule>, state: Seq<char>, input: KanaInput) -> Option<int>
    decreases ts.len(),
{
    if ts.len() == 0 {
        None
    } else if ts[0].from == state && ts[0].input == input {
        Some(0)
    } else {
        match first_rule(ts.drop_first(), state, input) {
            Some(i) => Some(i + 1),
            None => None,
        }
    }
}

/// The rules in effect for `mode`: hiragana uses `[trans]`; katakana and
/// half-width modes use `[trans]` minus the rules overridden by
/// `[trans.katakana]`, followed by those overrides.
pub open spec fn effective_rules(trans: Seq<TransitionRule>, kata: Seq<TransitionRule>, mode: KanaMode) -> Seq<TransitionRule> {
    match mode {
        KanaMode::Hiragana => trans,
        _ => trans.filter(|t: TransitionRule| !has_lhs(kata, t)) + kata,
    }
}

/// Katakana counterpart of a hiragana character (U+3041–U+3096 → U+30A1–U+30F6).
pub open spec fn kata_char(c: char) -> char {
    if 0x3041 <= (c as u32) && (c as u32) <= 0x3096 {
        ((c as u32) + 0x60) as char
    } else {
        c
    }
}

/// Character-wise katakana conversion.
pub open spec fn kata_seq(s: Seq<char>) -> Seq<char> {
    s.map_values(|c: char| kata_char(c))
}

/// Whether `c` is a hiragana letter (U+3041–U+3096).
pub open spec fn is_hiragana(c: char) -> bool {
    0x3041 <= (c as u32) && (c as u32) <= 0x3096
}

/// Every hiragana letter becomes the katakana letter 0x60 above it; any
/// other character is kept.
pub proof fn lemma_kata_char_shift(c: char)
    ensures
        is_hiragana(c) ==> kata_char(c) as u32 == c as u32 + 0x60,
        !is_hiragana(c) ==> kata_char(c) == c,
        !is_hiragana(kata_char(c)),
{
    if is_hiragana(c) {
        let v: u32 = ((c as u32) + 0x60) as u32;
        assert(0x30A1 <= v <= 0x30F6);
        assert((v as char) as u32 == v);
    }
}

/// The katakana form of a text holds no hiragana letter, and has one
/// character for each character of the text.
pub proof fn lemma_kata_seq_no_hiragana(s: Seq<char>)
    ensures
        kata_seq(s).len() == s.len(),
        forall|i: int| 0 <= i < s.len() ==> !is_hiragana(#[trigger] kata_seq(s)[i]),
{
    assert forall|i: int| 0 <= i < s.len() implies !is_hiragana(#[trigger] kata_seq(s)[i]) by {
        lemma_kata_char_shift(s[i]);
    }
}

/// Half-width katakana for a full-width katakana character; voiced and
/// semi-voiced characters decompose into a base and a mark.
pub open spec fn halfwidth_of_kata(k: char) -> Seq<char> {
    if k == 'ァ' { seq!['ｧ'] }
    else if k == 'ア' { seq!['ｱ'] }
    else if k == 'ィ' { seq!['ｨ'] }
    else if k == 'イ' { seq!['ｲ'] }
    else if k == 'ゥ' { seq!['ｩ'] }
    else if k == 'ウ' { seq!['ｳ'] }
    else if k == 'ェ' { seq!['ｪ'] }
    else if k == 'エ' { seq!['ｴ'] }
    else if k == 'ォ' { seq!['ｫ'] }
    else if k == 'オ' { seq!['ｵ'] }
    else if k == 'カ' { seq!['ｶ'] }
    else if k == 'ガ' { seq!['ｶ', 'ﾞ'] }
    else if k == 'キ' { seq!['ｷ'] }
    else if k == 'ギ' { seq!['ｷ', 'ﾞ'] }
    else if k == 'ク' { seq!['ｸ'] }
    else if k == 'グ' { seq!['ｸ', 'ﾞ'] }
    else if k == 'ケ' { seq!['ｹ'] }
    else if k == 'ゲ' { seq!['ｹ', 'ﾞ'] }
    else if k == 'コ' { seq!['ｺ'] }
    else if k == 'ゴ' { seq!['ｺ', 'ﾞ'] }
    else if k == 'サ' { seq!['ｻ'] }
    else if k == 'ザ' { seq!['ｻ', 'ﾞ'] }
    else if k == 'シ' { seq!['ｼ'] }
    else if k == 'ジ' { seq!['ｼ', 'ﾞ'] }
    else if k == 'ス' { seq!['ｽ'] }
    else if k == 'ズ' { seq!['ｽ', 'ﾞ'] }
    else if k == 'セ' { seq!['ｾ'] }
    else if k == 'ゼ' { seq!['ｾ', 'ﾞ'] }
    else if k == 'ソ' { seq!['ｿ'] }
    else if k == 'ゾ' { seq!['ｿ', 'ﾞ'] }
    else if k == 'タ' { seq!['ﾀ'] }
    else if k == 'ダ' { seq!['ﾀ', 'ﾞ'] }
    else if k == 'チ' { seq!['ﾁ'] }
    else if k == 'ヂ' { seq!['ﾁ', 'ﾞ'] }
    else if k == 'ッ' { seq!['ｯ'] }
    else if k == 'ツ' { seq!['ﾂ'] }
    else if k == 'ヅ' { seq!['ﾂ', 'ﾞ'] }
    else if k == 'テ' { seq!['ﾃ'] }
    else if k == 'デ' { seq!['ﾃ', 'ﾞ'] }
    else if k == 'ト' { seq!['ﾄ'] }
    else if k == 'ド' { seq!['ﾄ', 'ﾞ'] }
    else if k == 'ナ' { seq!['ﾅ'] }
    else if k == 'ニ' { seq!['ﾆ'] }
    else if k == 'ヌ' { seq!['ﾇ'] }
    else if k == 'ネ' { seq!['ﾈ'] }
    else if k == 'ノ' { seq!['ﾉ'] }
    else if k == 'ハ' { seq!['ﾊ'] }
    else if k == 'バ' { seq!['ﾊ', 'ﾞ'] }
    else if k == 'パ' { seq!['ﾊ', 'ﾟ'] }
    else if k == 'ヒ' { seq!['ﾋ'] }
    else if k == 'ビ' { seq!['ﾋ', 'ﾞ'] }
    else if k == 'ピ' { seq!['ﾋ', 'ﾟ'] }
    else if k == 'フ' { seq!['ﾌ'] }
    else if k == 'ブ' { seq!['ﾌ', 'ﾞ'] }
    else if k == 'プ' { seq!['ﾌ', 'ﾟ'] }
    else if k == 'ヘ' { seq!['ﾍ'] }
    else if k == 'ベ' { seq!['ﾍ', 'ﾞ'] }
    else if k == 'ペ' { seq!['ﾍ', 'ﾟ'] }
    else if k == 'ホ' { seq!['ﾎ'] }
    else if k == 'ボ' { seq!['ﾎ', 'ﾞ'] }
    else if k == 'ポ' { seq!['ﾎ', 'ﾟ'] }
    else if k == 'マ' { seq!['ﾏ'] }
    else if k == 'ミ' { seq!['ﾐ'] }
    else if k == 'ム' { seq!['ﾑ'] }
    else if k == 'メ' { seq!['ﾒ'] }
    else if k == 'モ' { seq!['ﾓ'] }
    else if k == 'ャ' { seq!['ｬ'] }
    else if k == 'ヤ' { seq!['ﾔ'] }
    else if k == 'ュ' { seq!['ｭ'] }
    else if k == 'ユ' { seq!['ﾕ'] }
    else if k == 'ョ' { seq!['ｮ'] }
    else if k == 'ヨ' { seq!['ﾖ'] }
    else if k == 'ラ' { seq!['ﾗ'] }
    else if k == 'リ' { seq!['ﾘ'] }
    else if k == 'ル' { seq!['ﾙ'] }
    else if k == 'レ' { seq!['ﾚ'] }
    else if k == 'ロ' { seq!['ﾛ'] }
    else if k == 'ワ' { seq!['ﾜ'] }
    else if k == 'ヲ' { seq!['ｦ'] }
    else if k == 'ン' { seq!['ﾝ'] }
    else if k == 'ヴ' { seq!['ｳ', 'ﾞ'] }
    else if k == 'ヵ' { seq!['ｶ'] }
    else if k == 'ヶ' { seq!['ｹ'] }
    else if k == 'ー' { seq!['ｰ'] }
    else if k == '。' { seq!['｡'] }
    else if k == '「' { seq!['｢'] }
    else if k == '」' { seq!['｣'] }
    else if k == '、' { seq!['､'] }
    else if k == '・' { seq!['･'] }
    else { seq![k] }
}

/// Half-width form of one character (via its katakana form).
pub open spec fn halfwidth_char(c: char) -> Seq<char> {
    halfwidth_of_kata(kata_char(c))
}

/// Half-width katakana form of a hiragana string.
pub open spec fn halfwidth_seq(s: Seq<char>) -> Seq<char>
    decreases s.len(),
{
    if s.len() == 0 {
        Seq::empty()
    } else {
        halfwidth_seq(s.drop_last()) + halfwidth_char(s.last())
    }
}

/// Conversion of a hiragana output string to the target mode.
pub open spec fn convert_output_seq(output: Seq<char>, mode: KanaMode) -> Seq<char> {
    match mode {
        KanaMode::Hiragana => output,
        KanaMode::Katakana => kata_seq(output),
        KanaMode::HalfWidth => halfwidth_seq(output),
    }
}

/// The result of feeding `input` in `state` to a table with the given rules.
pub open spec fn spec_transition(
    trans: Seq<TransitionRule>,
    kata: Seq<TransitionRule>,
    state: Seq<char>,
    input: char,
    mode: KanaMode,
) -> TransitionOutcome {
    let ts = effective_rules(trans, kata, mode);
    match first_rule(ts, state, KanaInput::Char(input)) {
        Some(i) => TransitionOutcome::Advance {
            output: convert_output_seq(ts[i].output, mode),
            next_state: ts[i].to,
        },
        None => match first_rule(ts, state, KanaInput::Wildcard) {
            Some(i) => TransitionOutcome::OkRetry {
                output: convert_output_seq(ts[i].output, mode),
                retry: input,
            },
            None => if state.len() == 0 {
                TransitionOutcome::NoMatch { flush: Seq::empty(), retry: None }
            } else {
                TransitionOutcome::NoMatch { flush: state, retry: Some(input) }
            },
        },
    }
}

/// Alias of `input` among `aliases` (the last pair for `input` wins).
pub open spec fn alias_of(aliases: Seq<(char, char)>, input: char) -> char
    decreases aliases.len(),
{
    if aliases.len() == 0 {
        input
    } else if aliases.last().0 == input {
        aliases.last().1
    } else {
        alias_of(aliases.drop_last(), input)
    }
}

/// Views of a vector of transitions.
pub open spec fn rules_of(v: Seq<KanaTransition>) -> Seq<TransitionRule> {
    v.map_values(|t: KanaTransition| t@)
}

/// `base` with the rules whose left-hand side is redefined in `user` removed,
/// followed by `user`.
pub open spec fn overlay_rules(base: Seq<TransitionRule>, user: Seq<TransitionRule>) -> Seq<TransitionRule> {
    base.filter(|t: TransitionRule| !has_lhs(user, t)) + user
}

impl KanaTable {
    /// The `[trans]` rules.
    pub closed spec fn spec_transitions(&self) -> Seq<TransitionRule> {
        rules_of(self.transitions@)
    }

    /// The `[trans.katakana]` rules.
    pub closed spec fn spec_kata_overrides(&self) -> Seq<TransitionRule> {
        rules_of(self.kata_overrides@)
    }

    /// The `[okuri_alias]` pairs in insertion order.
    pub closed spec fn spec_aliases(&self) -> Seq<(char, char)> {
        self.okuri_aliases@
    }

    /// The outcome of `transition(state, input, mode)`.
    pub open spec fn spec_step(&self, state: Seq<char>, input: char, mode: KanaMode) -> TransitionOutcome {
        spec_transition(self.spec_transitions(), self.spec_kata_overrides(), state, input, mode)
    }

    pub fn new(
        transitions: Vec<KanaTransition>,
        kata_overrides: Vec<KanaTransition>,
        okuri_aliases: Vec<(char, char)>,
    ) -> (r: Self)
        ensures
            r.spec_transitions() == rules_of(transitions@),
            r.spec_kata_overrides() == rules_of(kata_overrides@),
            r.spec_aliases() == okuri_aliases@,
    {
        Self { transitions, kata_overrides, okuri_aliases }
    }

    /// Overlays a user-defined table on top of this table.
    /// Used to partially override a built-in table with user-defined rules.
    pub fn overlay(self, user: KanaTable) -> (r: Self)
        ensures
            r.spec_transitions() == overlay_rules(self.spec_transitions(), user.spec_transitions()),
            r.spec_kata_overrides() == overlay_rules(
                self.spec_kata_overrides(),
                user.spec_kata_overrides(),
            ),
            r.spec_aliases() == self.spec_aliases() + user.spec_aliases(),
    {
        let transitions = overlay_vec(self.transitions, user.transitions);
        let kata_overrides = overlay_vec(self.kata_overrides, user.kata_overrides);
        let mut okuri_aliases = self.okuri_aliases;
        let mut extra = user.okuri_aliases;
        okuri_aliases.append(&mut extra);
        KanaTable { transitions, kata_overrides, okuri_aliases }
    }

    /// Returns the transition result for the given state and input character.
    /// Wildcard rules are used as a fallback when no exact rule matches.
    pub fn transition(&self, state: &str, input: char, mode: KanaMode) -> (r: TransitionResult)
        ensures
            r@ == self.spec_step(state@, input, mode),
    {
        let ts = self.effective_transitions(mode);
        let ghost rules = effective_rules(self.spec_transitions(), self.spec_kata_overrides(), mode);
        match find_rule(&ts, state, KanaInput::Char(input)) {
            Some(i) => {
                let t = &ts[i];
                let output = self.convert_output(t.output.as_str(), mode);
                TransitionResult::Advance { output, next_state: t.to.clone() }
            },
            None => match find_rule(&ts, state, KanaInput::Wildcard) {
                Some(i) => {
                    let t = &ts[i];
                    let output = self.convert_output(t.output.as_str(), mode);
                    TransitionResult::OkRetry { output, retry: input }
                },
                None => {
                    if state.is_empty() {
                        TransitionResult::NoMatch { flush: String::new(), retry: None }
                    } else {
                        TransitionResult::NoMatch { flush: state.to_owned(), retry: Some(input) }
                    }
                },
            },
        }
    }

    /// Resolves the okurigana dictionary key for the given input character.
    /// Returns the alias if registered in `[okuri_alias]`, otherwise returns the character unchanged.
    pub fn okuri_key(&self, input: char) -> (r: char)
        ensures
            r == alias_of(self.spec_aliases(), input),
    {
        let mut i = self.okuri_aliases.len();
        assert(self.okuri_aliases@.take(i as int) =~= self.okuri_aliases@);
        while i > 0
            invariant
                i <= self.okuri_aliases.len(),
                alias_of(self.okuri_aliases@, input) == alias_of(self.okuri_aliases@.take(i as int), input),
            decreases i,
        {
            let ghost prefix = self.okuri_aliases@.take(i as int);
            assert(prefix.drop_last() =~= self.okuri_aliases@.take(i - 1));
            let (k, v) = self.okuri_aliases[i - 1];
            if k == input {
                return v;
            }
            i -= 1;
        }
        input
    }

    /// Returns the effective transition list for the given mode.
    fn effective_transitions(&self, mode: KanaMode) -> (r: Vec<KanaTransition>)
        ensures
            rules_of(r@) == effective_rules(self.spec_transitions(), self.spec_kata_overrides(), mode),
    {
        match mode {
            KanaMode::Hiragana => clone_rules(&self.transitions),
            _ => {
                let base = clone_rules(&self.transitions);
                let kata = clone_rules(&self.kata_overrides);
                overlay_vec(base, kata)
            },
        }
    }

    /// Converts a hiragana output string to the target mode.
    fn convert_output(&self, output: &str, mode: KanaMode) -> (r: String)
        ensures
            r@ == convert_output_seq(output@, mode),
    {
        match mode {
            KanaMode::Hiragana => output.to_owned(),
            KanaMode::Katakana => hiragana_to_katakana(output),
            KanaMode::HalfWidth => hiragana_to_halfwidth(output),
        }
    }
}

/// A copy of a transition rule with the same view.
fn clone_rule(t: &KanaTransition) -> (r: KanaTransition)
    ensures
        r@ == t@,
{
    KanaTransition { from: t.from.clone(), input: t.input, to: t.to.clone(), output: t.output.clone() }
}

/// A copy of a rule list with the same views.
fn clone_rules(v: &Vec<KanaTransition>) -> (r: Vec<KanaTransition>)
    ensures
        rules_of(r@) == rules_of(v@),
{
    let mut r: Vec<KanaTransition> = Vec::new();
    let mut i: usize = 0;
    while i < v.len()
        invariant
            i <= v.len(),
            rules_of(r@) == rules_of(v@.take(i as int)),
        decreases v.len() - i,
    {
        r.push(clone_rule(&v[i]));
        assert(rules_of(v@.take(i + 1)) =~= rules_of(v@.take(i as int)).push(v@[i as int]@));
        i += 1;
    }
    assert(v@.take(v.len() as int) =~= v@);
    r
}

/// Whether some rule of `user` has the left-hand side of `t`.
fn has_lhs_exec(user: &Vec<KanaTransition>, t: &KanaTransition) -> (r: bool)
    ensures
        r == has_lhs(rules_of(user@), t@),
{
    let mut i: usize = 0;
    while i < user.len()
        invariant
            i <= user.len(),
            forall|j: int| 0 <= j < i ==> !same_lhs(#[trigger] rules_of(user@)[j], t@),
        decreases user.len() - i,
    {
        if str_eq(user[i].from.as_str(), t.from.as_str()) && user[i].input == t.input {
            assert(same_lhs(rules_of(user@)[i as int], t@));
            return true;
        }
        i += 1;
    }
    false
}

/// `base` without the rules redefined in `user`, followed by `user`.
fn overlay_vec(base: Vec<KanaTransition>, user: Vec<KanaTransition>) -> (r: Vec<KanaTransition>)
    ensures
        rules_of(r@) == overlay_rules(rules_of(base@), rules_of(user@)),
{
    let mut r: Vec<KanaTransition> = Vec::new();
    let ghost ur = rules_of(user@);
    let ghost pred = |t: TransitionRule| !has_lhs(ur, t);
    let mut i: usize = 0;
    while i < base.len()
        invariant
            i <= base.len(),
            ur == rules_of(user@),
            pred == (|t: TransitionRule| !has_lhs(ur, t)),
            rules_of(r@) == rules_of(base@.take(i as int)).filter(pred),
        decreases base.len() - i,
    {
        let ghost before = rules_of(base@.take(i as int));
        assert(rules_of(base@.take(i + 1)) =~= before.push(base@[i as int]@));
        assert(rules_of(base@.take(i + 1)).drop_last() =~= before);
        reveal_with_fuel(Seq::filter, 1);
        if !has_lhs_exec(&user, &base[i]) {
            let ghost old_r = r@;
            r.push(clone_rule(&base[i]));
            assert(rules_of(r@) =~= rules_of(old_r).push(base@[i as int]@));
        }
        i += 1;
    }
    assert(base@.take(base.len() as int) =~= base@);
    let ghost filtered = rules_of(r@);
    let mut u = user;
    let ghost um = u@;
    r.append(&mut u);
    assert(rules_of(r@) =~= filtered + rules_of(um));
    r
}

/// Index of the first rule whose left-hand side is `(state, input)`.
fn find_rule(ts: &Vec<KanaTransition>, state: &str, input: KanaInput) -> (r: Option<usize>)
    ensures
        match first_rule(rules_of(ts@), state@, input) {
            Some(i) => r == Some(i as usize) && 0 <= i < ts.len(),
            None => r is None,
        },
{
    let mut i: usize = 0;
    while i < ts.len()
        invariant
            i <= ts.len(),
            forall|j: int| 0 <= j < i ==> !(ts@[j].from@ == state@ && ts@[j].input == input),
        decreases ts.len() - i,
    {
        if str_eq(ts[i].from.as_str(), state) && ts[i].input == input {
            proof { lemma_first_rule_found(rules_of(ts@), state@, input, i as int); }
            return Some(i);
        }
        i += 1;
    }
    proof { lemma_first_rule_none(rules_of(ts@), state@, input); }
    None
}

proof fn lemma_first_rule_found(ts: Seq<TransitionRule>, state: Seq<char>, input: KanaInput, i: int)
    requires
        0 <= i < ts.len(),
        ts[i].from == state && ts[i].input == input,
        forall|j: int| 0 <= j < i ==> !(ts[j].from == state && ts[j].input == input),
    ensures
        first_rule(ts, state, input) == Some(i),
    decreases i,
{
    if i > 0 {
        lemma_first_rule_found(ts.drop_first(), state, input, i - 1);
    }
}

proof fn lemma_first_rule_none(ts: Seq<TransitionRule>, state: Seq<char>, input: KanaInput)
    requires
        forall|j: int| 0 <= j < ts.len() ==> !(ts[j].from == state && ts[j].input == input),
    ensures
        first_rule(ts, state, input) is None,
    decreases ts.len(),
{
    if ts.len() > 0 {
        lemma_first_rule_none(ts.drop_first(), state, input);
    }
}

/// The lookup result of `first_rule` is a matching rule.
pub proof fn lemma_first_rule_matches(ts: Seq<TransitionRule>, state: Seq<char>, input: KanaInput)
    ensures
        first_rule(ts, state, input) matches Some(i) ==> 0 <= i < ts.len() && ts[i].from == state
            && ts[i].input == input,
    decreases ts.len(),
{
    if ts.len() > 0 {
        lemma_first_rule_matches(ts.drop_first(), state, input);
    }
}

proof fn lemma_first_rule_after(a: Seq<TransitionRule>, b: Seq<TransitionRule>, state: Seq<char>, input: KanaInput)
    requires
        first_rule(a, state, input) is None,
    ensures
        first_rule(a + b, state, input) == (match first_rule(b, state, input) {
            Some(i) => Some(a.len() + i),
            None => None::<int>,
        }),
    decreases a.len(),
{
    if a.len() == 0 {
        assert(a + b =~= b);
    } else {
        assert((a + b).drop_first() =~= a.drop_first() + b);
        lemma_first_rule_after(a.drop_first(), b, state, input);
    }
}

/// A rule of the user's table overrides the base table: where the user's
/// `[trans]` rules have a rule for the state and the character, the
/// overlaid table steps in hiragana mode exactly as the user's rules do.
pub proof fn lemma_overlay_user_rule_wins(
    base: Seq<TransitionRule>,
    base_kata: Seq<TransitionRule>,
    user: Seq<TransitionRule>,
    user_kata: Seq<TransitionRule>,
    state: Seq<char>,
    c: char,
)
    requires
        first_rule(user, state, KanaInput::Char(c)) is Some,
    ensures
        spec_transition(overlay_rules(base, user), overlay_rules(base_kata, user_kata), state, c, KanaMode::Hiragana)
            == spec_transition(user, user_kata, state, c, KanaMode::Hiragana),
{
    let input = KanaInput::Char(c);
    let kept = base.filter(|t: TransitionRule| !has_lhs(user, t));
    lemma_first_rule_matches(user, state, input);
    let k = first_rule(user, state, input)->0;
    assert forall|j: int| 0 <= j < kept.len() implies !(#[trigger] kept[j].from == state && kept[j].input == input) by {
        broadcast use vstd::seq_lib::group_filter_ensures;
        assert(!has_lhs(user, kept[j]));
        if kept[j].from == state && kept[j].input == input {
            assert(same_lhs(user[k], kept[j]));
        }
    }
    lemma_first_rule_none(kept, state, input);
    lemma_first_rule_after(kept, user, state, input);
    assert(overlay_rules(base, user) == kept + user);
    assert((kept + user)[kept.len() + k] == user[k]);
}

/// The rule `first_rule` finds, if any.
pub open spec fn found_rule(ts: Seq<TransitionRule>, state: Seq<char>, input: KanaInput) -> Option<TransitionRule> {
    match first_rule(ts, state, input) {
        Some(i) => Some(ts[i]),
        None => None,
    }
}

proof fn lemma_first_rule_some(ts: Seq<TransitionRule>, state: Seq<char>, input: KanaInput, i: int)
    requires
        0 <= i < ts.len(),
        ts[i].from == state && ts[i].input == input,
    ensures
        first_rule(ts, state, input) is Some,
    decreases ts.len(),
{
    if i > 0 && !(ts[0].from == state && ts[0].input == input) {
        assert(ts.drop_first()[i - 1] == ts[i]);
        lemma_first_rule_some(ts.drop_first(), state, input, i - 1);
    }
}

proof fn lemma_first_rule_before(a: Seq<TransitionRule>, b: Seq<TransitionRule>, state: Seq<char>, input: KanaInput)
    requires
        first_rule(a, state, input) is Some,
    ensures
        first_rule(a + b, state, input) == first_rule(a, state, input),
    decreases a.len(),
{
    if !(a[0].from == state && a[0].input == input) {
        assert((a + b).drop_first() =~= a.drop_first() + b);
        lemma_first_rule_before(a.drop_first(), b, state, input);
    }
}

proof fn lemma_found_rule_step(ts: Seq<TransitionRule>, state: Seq<char>, input: KanaInput)
    requires
        ts.len() > 0,
    ensures
        found_rule(ts, state, input) == (if ts[0].from == state && ts[0].input == input {
            Some(ts[0])
        } else {
            found_rule(ts.drop_first(), state, input)
        }),
{
    lemma_first_rule_matches(ts.drop_first(), state, input);
    if !(ts[0].from == state && ts[0].input == input) {
        if let Some(i) = first_rule(ts.drop_first(), state, input) {
            assert(ts.drop_first()[i] == ts[i + 1]);
        }
    }
}

proof fn lemma_found_rule_filter(ts: Seq<TransitionRule>, p: spec_fn(TransitionRule) -> bool, state: Seq<char>, input: KanaInput)
    requires
        forall|t: TransitionRule| t.from == state && t.input == input ==> #[trigger] p(t),
    ensures
        found_rule(ts.filter(p), state, input) == found_rule(ts, state, input),
    decreases ts.len(),
{
    if ts.len() > 0 {
        ts.lemma_filter_eq_filter_alt(p);
        let rest = ts.drop_first().filter(p);
        lemma_found_rule_filter(ts.drop_first(), p, state, input);
        lemma_found_rule_step(ts, state, input);
        if p(ts[0]) {
            let f = seq![ts[0]] + rest;
            assert(ts.filter(p) == f);
            assert(f[0] == ts[0]);
            assert(f.drop_first() =~= rest);
            lemma_found_rule_step(f, state, input);
        } else {
            assert(ts.filter(p) == rest);
        }
    }
}

/// Where the user's `[trans]` rules have no rule for the state and the
/// character and the base rules have one, the overlaid table steps in
/// hiragana mode exactly as the base rules do.
pub proof fn lemma_overlay_keeps_base_rule(
    base: Seq<TransitionRule>,
    base_kata: Seq<TransitionRule>,
    user: Seq<TransitionRule>,
    user_kata: Seq<TransitionRule>,
    state: Seq<char>,
    c: char,
)
    requires
        first_rule(user, state, KanaInput::Char(c)) is None,
        first_rule(base, state, KanaInput::Char(c)) is Some,
    ensures
        spec_transition(overlay_rules(base, user), overlay_rules(base_kata, user_kata), state, c, KanaMode::Hiragana)
            == spec_transition(base, base_kata, state, c, KanaMode::Hiragana),
{
    let input = KanaInput::Char(c);
    let p = |t: TransitionRule| !has_lhs(user, t);
    assert forall|t: TransitionRule| t.from == state && t.input == input implies #[trigger] p(t) by {
        if has_lhs(user, t) {
            let i = choose|i: int| 0 <= i < user.len() && same_lhs(#[trigger] user[i], t);
            lemma_first_rule_some(user, state, input, i);
        }
    }
    let kept = base.filter(p);
    lemma_found_rule_filter(base, p, state, input);
    lemma_first_rule_matches(base, state, input);
    lemma_first_rule_matches(kept, state, input);
    assert(first_rule(kept, state, input) is Some);
    lemma_first_rule_before(kept, user, state, input);
    assert(overlay_rules(base, user) == kept + user);
    let m = first_rule(kept, state, input)->0;
    assert((kept + user)[m] == kept[m]);
}

/// In katakana mode a table never outputs a hiragana letter, whatever its
/// rules say.
pub proof fn lemma_katakana_step_has_no_hiragana(
    trans: Seq<TransitionRule>,
    kata: Seq<TransitionRule>,
    state: Seq<char>,
    input: char,
)
    ensures
        ({
            let out = match spec_transition(trans, kata, state, input, KanaMode::Katakana) {
                TransitionOutcome::Advance { output, .. } => output,
                TransitionOutcome::OkRetry { output, .. } => output,
                TransitionOutcome::NoMatch { .. } => Seq::empty(),
            };
            forall|i: int| 0 <= i < out.len() ==> !is_hiragana(#[trigger] out[i])
        }),
{
    let ts = effective_rules(trans, kata, KanaMode::Katakana);
    match first_rule(ts, state, KanaInput::Char(input)) {
        Some(i) => lemma_kata_seq_no_hiragana(ts[i].output),
        None => match first_rule(ts, state, KanaInput::Wildcard) {
            Some(i) => lemma_kata_seq_no_hiragana(ts[i].output),
            None => {},
        },
    }
}

/// Converts hiragana to katakana using Unicode offsets (U+3041–U+3096 → U+30A1–U+30F6).
pub fn hiragana_to_katakana(s: &str) -> (r: String)
    ensures
        r@ == kata_seq(s@),
{
    let cs = chars_of(s);
    let mut out: Vec<char> = Vec::new();
    let mut i: usize = 0;
    while i < cs.len()
        invariant
            i <= cs.len(),
            cs@ == s@,
            out@ == kata_seq(cs@.take(i as int)),
        decreases cs.len() - i,
    {
        out.push(katakana_char(cs[i]));
        assert(kata_seq(cs@.take(i + 1)) =~= kata_seq(cs@.take(i as int)).push(kata_char(cs@[i as int])));
        i += 1;
    }
    assert(cs@.take(cs.len() as int) =~= cs@);
    string_from_chars(&out)
}

/// Katakana counterpart of one character.
pub fn katakana_char(c: char) -> (r: char)
    ensures
        r == kata_char(c),
{
    let u = c as u32;
    if 0x3041 <= u && u <= 0x3096 {
        char_from_scalar(u + 0x60)
    } else {
        c
    }
}

/// Converts hiragana to half-width katakana.
pub fn hiragana_to_halfwidth(s: &str) -> (r: String)
    ensures
        r@ == halfwidth_seq(s@),
{
    let cs = chars_of(s);
    let mut out: Vec<char> = Vec::new();
    let mut i: usize = 0;
    while i < cs.len()
        invariant
            i <= cs.len(),
            cs@ == s@,
            out@ == halfwidth_seq(cs@.take(i as int)),
        decreases cs.len() - i,
    {
        let mut part = to_halfwidth_katakana(cs[i]);
        let ghost before = out@;
        out.append(&mut part);
        assert(cs@.take(i + 1).drop_last() =~= cs@.take(i as int));
        i += 1;
    }
    assert(cs@.take(cs.len() as int) =~= cs@);
    string_from_chars(&out)
}

/// Converts a single character to half-width katakana.
/// Characters with dakuten/handakuten are decomposed into two half-width characters.
pub fn to_halfwidth_katakana(c: char) -> (r: Vec<char>)
    ensures
        r@ == halfwidth_char(c),
{
    let k = katakana_char(c);
    match k {
        'ァ' => vec!['ｧ'],
        'ア' => vec!['ｱ'],
        'ィ' => vec!['ｨ'],
        'イ' => vec!['ｲ'],
        'ゥ' => vec!['ｩ'],
        'ウ' => vec!['ｳ'],
        'ェ' => vec!['ｪ'],
        'エ' => vec!['ｴ'],
        'ォ' => vec!['ｫ'],
        'オ' => vec!['ｵ'],
        'カ' => vec!['ｶ'],
        'ガ' => vec!['ｶ', 'ﾞ'],
        'キ' => vec!['ｷ'],
        'ギ' => vec!['ｷ', 'ﾞ'],
        'ク' => vec!['ｸ'],
        'グ' => vec!['ｸ', 'ﾞ'],
        'ケ' => vec!['ｹ'],
        'ゲ' => vec!['ｹ', 'ﾞ'],
        'コ' => vec!['ｺ'],
        'ゴ' => vec!['ｺ', 'ﾞ'],
        'サ' => vec!['ｻ'],
        'ザ' => vec!['ｻ', 'ﾞ'],
        'シ' => vec!['ｼ'],
        'ジ' => vec!['ｼ', 'ﾞ'],
        'ス' => vec!['ｽ'],
        'ズ' => vec!['ｽ', 'ﾞ'],
        'セ' => vec!['ｾ'],
        'ゼ' => vec!['ｾ', 'ﾞ'],
        'ソ' => vec!['ｿ'],
        'ゾ' => vec!['ｿ', 'ﾞ'],
        'タ' => vec!['ﾀ'],
        'ダ' => vec!['ﾀ', 'ﾞ'],
        'チ' => vec!['ﾁ'],
        'ヂ' => vec!['ﾁ', 'ﾞ'],
        'ッ' => vec!['ｯ'],
        'ツ' => vec!['ﾂ'],
        'ヅ' => vec!['ﾂ', 'ﾞ'],
        'テ' => vec!['ﾃ'],
        'デ' => vec!['ﾃ', 'ﾞ'],
        'ト' => vec!['ﾄ'],
        'ド' => vec!['ﾄ', 'ﾞ'],
        'ナ' => vec!['ﾅ'],
        'ニ' => vec!['ﾆ'],
        'ヌ' => vec!['ﾇ'],
        'ネ' => vec!['ﾈ'],
        'ノ' => vec!['ﾉ'],
        'ハ' => vec!['ﾊ'],
        'バ' => vec!['ﾊ', 'ﾞ'],
        'パ' => vec!['ﾊ', 'ﾟ'],
        'ヒ' => vec!['ﾋ'],
        'ビ' => vec!['ﾋ', 'ﾞ'],
        'ピ' => vec!['ﾋ', 'ﾟ'],
        'フ' => vec!['ﾌ'],
        'ブ' => vec!['ﾌ', 'ﾞ'],
        'プ' => vec!['ﾌ', 'ﾟ'],
        'ヘ' => vec!['ﾍ'],
        'ベ' => vec!['ﾍ', 'ﾞ'],
        'ペ' => vec!['ﾍ', 'ﾟ'],
        'ホ' => vec!['ﾎ'],
        'ボ' => vec!['ﾎ', 'ﾞ'],
        'ポ' => vec!['ﾎ', 'ﾟ'],
        'マ' => vec!['ﾏ'],
        'ミ' => vec!['ﾐ'],
        'ム' => vec!['ﾑ'],
        'メ' => vec!['ﾒ'],
        'モ' => vec!['ﾓ'],
        'ャ' => vec!['ｬ'],
        'ヤ' => vec!['ﾔ'],
        'ュ' => vec!['ｭ'],
        'ユ' => vec!['ﾕ'],
        'ョ' => vec!['ｮ'],
        'ヨ' => vec!['ﾖ'],
        'ラ' => vec!['ﾗ'],
        'リ' => vec!['ﾘ'],
        'ル' => vec!['ﾙ'],
        'レ' => vec!['ﾚ'],
        'ロ' => vec!['ﾛ'],
        'ワ' => vec!['ﾜ'],
        'ヲ' => vec!['ｦ'],
        'ン' => vec!['ﾝ'],
        'ヴ' => vec!['ｳ', 'ﾞ'],
        'ヵ' => vec!['ｶ'],
        'ヶ' => vec!['ｹ'],
        'ー' => vec!['ｰ'],
        '。' => vec!['｡'],
        '「' => vec!['｢'],
        '」' => vec!['｣'],
        '、' => vec!['､'],
        '・' => vec!['･'],
        other => vec![other],
    }
}

/// A rule that fires on any character in the start state.
pub open spec fn is_start_wildcard(t: TransitionRule) -> bool {
    t.from.len() == 0 && t.input is Wildcard
}

/// No rule of `ts` is a start-state wildcard.
pub open spec fn no_start_wildcard_rules(ts: Seq<TransitionRule>) -> bool {
    forall|i: int| 0 <= i < ts.len() ==> !is_start_wildcard(#[trigger] ts[i])
}

proof fn lemma_filter_no_start_wildcard(ts: Seq<TransitionRule>, pred: spec_fn(TransitionRule) -> bool)
    requires
        no_start_wildcard_rules(ts),
    ensures
        no_start_wildcard_rules(ts.filter(pred)),
    decreases ts.len(),
{
    reveal(Seq::filter);
    if ts.len() > 0 {
        let d = ts.drop_last();
        assert(no_start_wildcard_rules(d)) by {
            assert forall|i: int| 0 <= i < d.len() implies !is_start_wildcard(#[trigger] d[i]) by {
                assert(d[i] == ts[i]);
            }
        }
        lemma_filter_no_start_wildcard(d, pred);
        assert(!is_start_wildcard(ts.last()));
        let sub = d.filter(pred);
        let f = ts.filter(pred);
        assert(f == (if pred(ts.last()) { sub.push(ts.last()) } else { sub }));
        assert forall|i: int| 0 <= i < f.len() implies !is_start_wildcard(#[trigger] f[i]) by {
            if i < sub.len() {
                assert(f[i] == sub[i]);
            } else {
                assert(f[i] == ts.last());
            }
        }
    } else {
        assert(ts.filter(pred) == ts);
    }
}

impl KanaTable {
    /// No start-state wildcard rule in either rule set.
    pub open spec fn spec_no_start_wildcard(&self) -> bool {
        no_start_wildcard_rules(self.spec_transitions()) && no_start_wildcard_rules(self.spec_kata_overrides())
    }

    /// Whether some rule fires on any character in the start state.  Such a
    /// rule would re-process its input from the start state forever.
    pub fn has_start_wildcard(&self) -> (r: bool)
        ensures
            r == !self.spec_no_start_wildcard(),
    {
        let mut i: usize = 0;
        while i < self.transitions.len()
            invariant
                i <= self.transitions.len(),
                forall|k: int| 0 <= k < i ==> !is_start_wildcard(#[trigger] rules_of(self.transitions@)[k]),
            decreases self.transitions.len() - i,
        {
            let t = &self.transitions[i];
            if t.from.as_str().is_empty() && t.input == KanaInput::Wildcard {
                assert(is_start_wildcard(rules_of(self.transitions@)[i as int]));
                return true;
            }
            i += 1;
        }
        let mut j: usize = 0;
        while j < self.kata_overrides.len()
            invariant
                j <= self.kata_overrides.len(),
                no_start_wildcard_rules(rules_of(self.transitions@)),
                forall|k: int| 0 <= k < j ==> !is_start_wildcard(#[trigger] rules_of(self.kata_overrides@)[k]),
            decreases self.kata_overrides.len() - j,
        {
            let t = &self.kata_overrides[j];
            if t.from.as_str().is_empty() && t.input == KanaInput::Wildcard {
                assert(is_start_wildcard(rules_of(self.kata_overrides@)[j as int]));
                return true;
            }
            j += 1;
        }
        false
    }
}

/// Without start-state wildcards, the start state never asks to re-process
/// its input.
pub proof fn lemma_start_state_no_retry(t: KanaTable, c: char, m: KanaMode)
    requires
        t.spec_no_start_wildcard(),
    ensures
        !(t.spec_step(Seq::empty(), c, m) is OkRetry),
        t.spec_step(Seq::empty(), c, m) matches TransitionOutcome::NoMatch { retry, .. } ==> retry is None,
{
    let trans = t.spec_transitions();
    let kata = t.spec_kata_overrides();
    let ts = effective_rules(trans, kata, m);
    assert(no_start_wildcard_rules(ts)) by {
        if !(m is Hiragana) {
            let f = trans.filter(|r: TransitionRule| !has_lhs(kata, r));
            lemma_filter_no_start_wildcard(trans, |r: TransitionRule| !has_lhs(kata, r));
            assert forall|i: int| 0 <= i < ts.len() implies !is_start_wildcard(#[trigger] ts[i]) by {
                if i < f.len() {
                    assert(ts[i] == f[i]);
                } else {
                    assert(ts[i] == kata[i - f.len()]);
                }
            }
        }
    }
    lemma_first_rule_matches(ts, Seq::empty(), KanaInput::Wildcard);
    if let Some(i) = first_rule(ts, Seq::empty(), KanaInput::Wildcard) {
        assert(is_start_wildcard(ts[i]));
    }
}

} // verus!
