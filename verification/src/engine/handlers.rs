//! Key handling of the engine, phase by phase.

use vstd::prelude::*;
use vstd::string::StringExecFns;

use crate::dict::entry::{cands_view, clone_candidates, Candidate, CandidateView, DictEntry};
use crate::engine::code::{decode_jis_code, decode_unicode_code, spec_decode_jis, spec_decode_unicode, spec_wide_ascii, to_wide_ascii};
use crate::engine::preedit::{preedit_wf, completion_view};
use crate::engine::register::{
    frame_backspace, frame_backspace_exec, frame_delete, frame_delete_exec, frame_insert,
    frame_insert_exec, frame_left, frame_left_exec, frame_right, frame_right_exec,
};
use crate::engine::{
    actions_view, frame_wf, frames_view, opt_view, phase_indicator, phase_of_mode, phase_wf,
    ActionView, CodeInputPrefix, CompletionState, EngineAction, FrameView, PhaseView, RegisterFrame,
    SkkEngine, SkkPhase,
};
use crate::key::{has_ctrl, spec_printable_char, Key, KeyEvent, Modifiers};
use crate::kana::table::{KanaMode, TransitionOutcome, TransitionResult, lemma_start_state_no_retry};
use crate::text::{
    char_to_string, chars_of, contains_char, is_ascii, is_ascii_hexdigit, is_ascii_uppercase, pop_char,
    position_char, push_char, spec_is_ascii_hexdigit, spec_is_ascii_uppercase, spec_to_ascii_lowercase,
    str_eq, to_ascii_lowercase, spec_is_ascii,
};

verus! {

// ── Action lists ─────────────────────────────────────────────────────────────

/// An action of a key handler: never a status update (only
/// `process_key` reports mode changes), and an update-preedit action
/// carries a cursor on a character boundary.
pub open spec fn act_wf(a: ActionView) -> bool {
    &&& !(a is UpdateStatus)
    &&& a matches ActionView::UpdatePreedit(t, c) ==> preedit_wf((t, c))
}

pub open spec fn acts_wf(s: Seq<ActionView>) -> bool {
    forall|i: int| 0 <= i < s.len() ==> act_wf(#[trigger] s[i])
}

/// Nothing but the dictionaries and the state of the phases changed.
pub(crate) open spec fn keeps_config(o: SkkEngine, f: SkkEngine) -> bool {
    &&& f.kana_table == o.kana_table
    &&& f.keybindings == o.keybindings
    &&& f.dict_priority@ == o.dict_priority@
}

/// No action passes the key through.
pub open spec fn no_passthrough(s: Seq<ActionView>) -> bool {
    forall|i: int| 0 <= i < s.len() ==> !(#[trigger] s[i] is Passthrough)
}

pub(crate) fn acts1(a: EngineAction) -> (r: Vec<EngineAction>)
    ensures
        actions_view(r@) == seq![a@],
{
    let r = vec![a];
    assert(actions_view(r@) =~= seq![a@]);
    r
}

pub(crate) fn acts2(a: EngineAction, b: EngineAction) -> (r: Vec<EngineAction>)
    ensures
        actions_view(r@) == seq![a@, b@],
{
    let r = vec![a, b];
    assert(actions_view(r@) =~= seq![a@, b@]);
    r
}

fn acts3(a: EngineAction, b: EngineAction, c: EngineAction) -> (r: Vec<EngineAction>)
    ensures
        actions_view(r@) == seq![a@, b@, c@],
{
    let r = vec![a, b, c];
    assert(actions_view(r@) =~= seq![a@, b@, c@]);
    r
}

pub(crate) fn push_act(v: &mut Vec<EngineAction>, a: EngineAction)
    ensures
        actions_view(final(v)@) == actions_view(old(v)@).push(a@),
{
    v.push(a);
    assert(actions_view(final(v)@) =~= actions_view(old(v)@).push(a@));
}

fn append_acts(v: &mut Vec<EngineAction>, w: Vec<EngineAction>)
    ensures
        actions_view(final(v)@) == actions_view(old(v)@) + actions_view(w@),
{
    let ghost wv = w@;
    let mut w = w;
    v.append(&mut w);
    assert(actions_view(final(v)@) =~= actions_view(old(v)@) + actions_view(wv));
}

fn prepend_act(a: EngineAction, w: Vec<EngineAction>) -> (r: Vec<EngineAction>)
    ensures
        actions_view(r@) == seq![a@] + actions_view(w@),
{
    let mut r = acts1(a);
    append_acts(&mut r, w);
    r
}

pub(crate) proof fn lemma_acts_wf_concat(a: Seq<ActionView>, b: Seq<ActionView>)
    requires
        acts_wf(a),
        acts_wf(b),
    ensures
        acts_wf(a + b),
{
    assert forall|i: int| 0 <= i < (a + b).len() implies act_wf(#[trigger] (a + b)[i]) by {
        if i < a.len() {
            assert((a + b)[i] == a[i]);
        } else {
            assert((a + b)[i] == b[i - a.len()]);
        }
    }
}

pub(crate) proof fn lemma_no_pass_concat(a: Seq<ActionView>, b: Seq<ActionView>)
    requires
        no_passthrough(a),
        no_passthrough(b),
    ensures
        no_passthrough(a + b),
{
    assert forall|i: int| 0 <= i < (a + b).len() implies !(#[trigger] (a + b)[i] is Passthrough) by {
        if i < a.len() {
            assert((a + b)[i] == a[i]);
        } else {
            assert((a + b)[i] == b[i - a.len()]);
        }
    }
}

// ── Small helpers ────────────────────────────────────────────────────────────

/// Whether the event is Ctrl plus the character `c`.
pub open spec fn is_ctrl_char(e: KeyEvent, c: char) -> bool {
    e.key == Key::Char(c) && has_ctrl(e.modifiers)
}

pub(crate) fn ctrl_held(e: &KeyEvent) -> (r: bool)
    ensures
        r == has_ctrl(e.modifiers),
{
    e.modifiers.contains(Modifiers::ctrl())
}

fn is_str(s: &String, lit: char) -> (r: bool)
    ensures
        r == (s@ == seq![lit]),
{
    let cs = chars_of(s.as_str());
    if cs.len() == 1 && cs[0] == lit {
        assert(s@ =~= seq![lit]);
        true
    } else {
        false
    }
}

impl SkkEngine {
    /// Returns the `SkkPhase` corresponding to `midashi_display_mode`.
    pub(crate) fn kana_phase_from_display_mode(&self) -> (r: SkkPhase)
        ensures
            r@ == phase_of_mode(self.midashi_display_mode),
    {
        match self.midashi_display_mode {
            KanaMode::Katakana => SkkPhase::Katakana,
            KanaMode::HalfWidth => SkkPhase::HalfWidthKatakana,
            KanaMode::Hiragana => SkkPhase::Hiragana,
        }
    }

    /// The one-character mode indicator for the current phase.
    pub(crate) fn current_mode_indicator(&self) -> (r: char)
        ensures
            r == phase_indicator(self.phase@, self.midashi_display_mode),
    {
        match &self.phase {
            SkkPhase::Katakana => 'ア',
            SkkPhase::HalfWidthKatakana => 'ｱ',
            SkkPhase::Ascii => 'a',
            SkkPhase::WideAscii => 'Ａ',
            SkkPhase::Abbrev { .. } | SkkPhase::Midashi { .. } | SkkPhase::Okuri { .. } | SkkPhase::Selecting {
                ..
            } => match self.midashi_display_mode {
                KanaMode::Katakana => 'ア',
                KanaMode::HalfWidth => 'ｱ',
                KanaMode::Hiragana => 'あ',
            },
            _ => 'あ',
        }
    }

    /// A one-action list holding the current preedit.
    pub(crate) fn preedit_only(&self) -> (r: Vec<EngineAction>)
        requires
            self.inv(),
        ensures
            actions_view(r@) == seq![ActionView::UpdatePreedit(self.preedit_view().0, self.preedit_view().1)],
            acts_wf(actions_view(r@)),
    {
        acts1(self.preedit_action())
    }

    // ── ASCII mode ────────────────────────────────────────────────────────

    pub(crate) fn handle_ascii(&mut self, event: &KeyEvent) -> (r: Vec<EngineAction>)
        requires
            old(self).inv(),
        ensures
            final(self).inv(),
            keeps_config(*old(self), *final(self)),
            final(self).register_stack@ == old(self).register_stack@,
            final(self).kana_state@ == old(self).kana_state@,
            (is_ctrl_char(*event, 'j') || is_ctrl_char(*event, 'q')) ==> final(self).phase@ == PhaseView::Hiragana
                && actions_view(r@) == seq![ActionView::ClearPreedit],
            !(is_ctrl_char(*event, 'j') || is_ctrl_char(*event, 'q')) ==> final(self).phase@ == old(self).phase@
                && actions_view(r@) == seq![ActionView::Passthrough],
            acts_wf(actions_view(r@)),
    {
        if ctrl_held(event) {
            match event.key {
                Key::Char('j') | Key::Char('q') => {
                    self.phase = SkkPhase::Hiragana;
                    return acts1(EngineAction::ClearPreedit);
                },
                _ => {},
            }
        }
        acts1(EngineAction::Passthrough)
    }

    // ── Wide-ASCII mode ───────────────────────────────────────────────────

    pub(crate) fn handle_wide_ascii(&mut self, event: &KeyEvent) -> (r: Vec<EngineAction>)
        requires
            old(self).inv(),
        ensures
            final(self).inv(),
            keeps_config(*old(self), *final(self)),
            final(self).register_stack@ == old(self).register_stack@,
            final(self).kana_state@ == old(self).kana_state@,
            (is_ctrl_char(*event, 'j') || is_ctrl_char(*event, 'q')) ==> final(self).phase@ == PhaseView::Hiragana
                && actions_view(r@) == seq![ActionView::ClearPreedit],
            !(is_ctrl_char(*event, 'j') || is_ctrl_char(*event, 'q')) ==> final(self).phase@ == old(self).phase@
                && actions_view(r@) == (match spec_printable_char(event.key) {
                    Some(c) => match spec_wide_ascii(c) {
                        Some(w) => seq![ActionView::Commit(seq![w])],
                        None => seq![ActionView::Passthrough],
                    },
                    None => seq![ActionView::Passthrough],
                }),
            acts_wf(actions_view(r@)),
    {
        if ctrl_held(event) {
            match event.key {
                Key::Char('j') | Key::Char('q') => {
                    self.phase = SkkPhase::Hiragana;
                    return acts1(EngineAction::ClearPreedit);
                },
                _ => {},
            }
        }
        if let Some(ch) = event.printable_char() {
            if let Some(wide) = to_wide_ascii(ch) {
                return acts1(EngineAction::Commit(char_to_string(wide)));
            }
        }
        acts1(EngineAction::Passthrough)
    }
}

/// The preedit action of `e` with the kana state replaced by `s`.
pub(crate) open spec fn pre_with(e: SkkEngine, s: Seq<char>) -> ActionView {
    ActionView::UpdatePreedit(
        crate::engine::preedit::spec_preedit(
            e.phase@,
            s,
            e.midashi_display_mode,
            completion_view(e.completion),
            opt_view(e.conversion_trigger),
            frames_view(e.register_stack@),
        ).0,
        crate::engine::preedit::spec_preedit(
            e.phase@,
            s,
            e.midashi_display_mode,
            completion_view(e.completion),
            opt_view(e.conversion_trigger),
            frames_view(e.register_stack@),
        ).1,
    )
}

/// Feeding `ch` to the kana state machine in state `state`: the new state
/// and the actions.  A wildcard rule or a failed sequence re-feeds the
/// character from the start state (`fuel` bounds how often).
pub(crate) open spec fn feed_spec(e: SkkEngine, state: Seq<char>, ch: char, mode: KanaMode, fuel: nat) -> (Seq<char>, Seq<ActionView>)
    decreases fuel,
{
    match e.kana_table.spec_step(state, ch, mode) {
        TransitionOutcome::Advance { output, next_state } => (
            next_state,
            if output.len() == 0 {
                seq![pre_with(e, next_state)]
            } else {
                seq![ActionView::Commit(output), if next_state.len() == 0 {
                    ActionView::ClearPreedit
                } else {
                    pre_with(e, next_state)
                }]
            },
        ),
        TransitionOutcome::OkRetry { output, retry } => if fuel == 0 {
            (Seq::empty(), Seq::empty())
        } else {
            let (s2, a2) = feed_spec(e, Seq::empty(), retry, mode, (fuel - 1) as nat);
            (s2, (if output.len() == 0 { Seq::empty() } else { seq![ActionView::Commit(output)] }) + a2)
        },
        TransitionOutcome::NoMatch { retry, .. } => match retry {
            Some(r) => if fuel == 0 {
                (Seq::empty(), Seq::empty())
            } else {
                feed_spec(e, Seq::empty(), r, mode, (fuel - 1) as nat)
            },
            None => (Seq::empty(), seq![ActionView::Commit(seq![ch]), ActionView::ClearPreedit]),
        },
    }
}

pub(crate) open spec fn fuel_of(retry_ok: bool) -> nat {
    if retry_ok {
        1
    } else {
        0
    }
}

/// Everything but the kana state is the same.
pub(crate) open spec fn same_but_kana(o: SkkEngine, f: SkkEngine) -> bool {
    &&& keeps_config(o, f)
    &&& f.phase == o.phase
    &&& f.register_stack == o.register_stack
    &&& f.midashi_display_mode == o.midashi_display_mode
    &&& f.midashi_is_abbrev == o.midashi_is_abbrev
    &&& f.completion == o.completion
    &&& f.conversion_trigger == o.conversion_trigger
}

/// `feed_spec` does not read the kana state of the engine it is given.
pub(crate) proof fn lemma_feed_spec_indep(e1: SkkEngine, e2: SkkEngine, state: Seq<char>, ch: char, mode: KanaMode, fuel: nat)
    requires
        same_but_kana(e1, e2),
    ensures
        feed_spec(e1, state, ch, mode, fuel) == feed_spec(e2, state, ch, mode, fuel),
    decreases fuel,
{
    if fuel > 0 {
        match e1.kana_table.spec_step(state, ch, mode) {
            TransitionOutcome::OkRetry { retry, .. } => {
                lemma_feed_spec_indep(e1, e2, Seq::empty(), retry, mode, (fuel - 1) as nat);
            },
            TransitionOutcome::NoMatch { retry: Some(r), .. } => {
                lemma_feed_spec_indep(e1, e2, Seq::empty(), r, mode, (fuel - 1) as nat);
            },
            _ => {},
        }
    }
}

impl SkkEngine {
    /// Feeds a character into the kana state machine and returns the resulting actions.
    pub(crate) fn feed_kana(&mut self, ch: char, mode: KanaMode, retry_ok: bool) -> (r: Vec<EngineAction>)
        requires
            old(self).inv(),
            !retry_ok ==> old(self).kana_state@.len() == 0,
        ensures
            final(self).inv(),
            same_but_kana(*old(self), *final(self)),
            final(self).kana_state@ == feed_spec(*old(self), old(self).kana_state@, ch, mode, fuel_of(retry_ok)).0,
            actions_view(r@) == feed_spec(*old(self), old(self).kana_state@, ch, mode, fuel_of(retry_ok)).1,
            acts_wf(actions_view(r@)),
            no_passthrough(actions_view(r@)),
        decreases (if retry_ok { 1int } else { 0int }),
    {
        let ghost o = *self;
        let state = self.kana_state.clone();
        let result = self.kana_table.transition(state.as_str(), ch, mode);
        proof {
            if !retry_ok {
                assert(state@ =~= Seq::<char>::empty());
                lemma_start_state_no_retry(self.kana_table, ch, mode);
            }
        }
        match result {
            TransitionResult::Advance { output, next_state } => {
                self.kana_state = next_state;
                assert(self.preedit_view() == crate::engine::preedit::spec_preedit(
                    o.phase@,
                    self.kana_state@,
                    o.midashi_display_mode,
                    completion_view(o.completion),
                    opt_view(o.conversion_trigger),
                    frames_view(o.register_stack@),
                ));
                let ghost fuel: nat = fuel_of(retry_ok);
                assert(result@ == o.kana_table.spec_step(o.kana_state@, ch, mode));
                assert(feed_spec(o, o.kana_state@, ch, mode, fuel).0 == next_state@);
                if output.as_str().is_empty() {
                    let r = self.preedit_only();
                    assert(actions_view(r@) == feed_spec(o, o.kana_state@, ch, mode, fuel).1);
                    r
                } else {
                    let c = EngineAction::Commit(output);
                    if self.kana_state.as_str().is_empty() {
                        let r = acts2(c, EngineAction::ClearPreedit);
                        assert(actions_view(r@) == feed_spec(o, o.kana_state@, ch, mode, fuel).1);
                        r
                    } else {
                        let p = self.preedit_action();
                        let r = acts2(c, p);
                        assert(actions_view(r@) == feed_spec(o, o.kana_state@, ch, mode, fuel).1);
                        r
                    }
                }
            },
            TransitionResult::OkRetry { output, retry } => {
                self.kana_state = String::new();
                let mut actions = if output.as_str().is_empty() {
                    Vec::new()
                } else {
                    acts1(EngineAction::Commit(output))
                };
                let ghost a0 = actions_view(actions@);
                assert(retry_ok);
                let ghost mid = *self;
                let rest = self.feed_kana(retry, mode, false);
                proof {
                    assert(mid.kana_state@ =~= Seq::<char>::empty());
                    lemma_feed_spec_indep(mid, o, Seq::empty(), retry, mode, 0);
                    lemma_acts_wf_concat(a0, actions_view(rest@));
                    lemma_no_pass_concat(a0, actions_view(rest@));
                }
                append_acts(&mut actions, rest);
                actions
            },
            TransitionResult::NoMatch { flush: _, retry } => {
                self.kana_state = String::new();
                match retry {
                    Some(retry_ch) => {
                        assert(retry_ok);
                        let ghost mid = *self;
                        let r = self.feed_kana(retry_ch, mode, false);
                        proof {
                            assert(mid.kana_state@ =~= Seq::<char>::empty());
                            lemma_feed_spec_indep(mid, o, Seq::empty(), retry_ch, mode, 0);
                        }
                        r
                    },
                    None => acts2(EngineAction::Commit(char_to_string(ch)), EngineAction::ClearPreedit),
                }
            },
        }
    }
}

// ── Candidate lists ──────────────────────────────────────────────────────────

/// Whether some candidate of `cs` has the word `w`.
pub open spec fn has_word(cs: Seq<CandidateView>, w: Seq<char>) -> bool {
    exists|i: int| 0 <= i < cs.len() && (#[trigger] cs[i]).word == w
}

/// `cs` without candidates whose word occurred earlier.
pub open spec fn dedup_words(cs: Seq<CandidateView>) -> Seq<CandidateView>
    decreases cs.len(),
{
    if cs.len() == 0 {
        Seq::empty()
    } else {
        let d = dedup_words(cs.drop_last());
        if has_word(d, cs.last().word) {
            d
        } else {
            d.push(cs.last())
        }
    }
}

/// The candidates of all entries found, in dictionary order.
pub open spec fn all_candidates(found: Seq<Option<crate::dict::entry::EntryView>>) -> Seq<CandidateView>
    decreases found.len(),
{
    if found.len() == 0 {
        Seq::empty()
    } else {
        all_candidates(found.drop_last()) + match found.last() {
            Some(e) => e.candidates,
            None => Seq::empty(),
        }
    }
}

pub open spec fn found_view(v: Seq<Option<DictEntry>>) -> Seq<Option<crate::dict::entry::EntryView>> {
    v.map_values(|o: Option<DictEntry>| match o {
        Some(e) => Some(e@),
        None => None,
    })
}

/// No two candidates share a word.
pub open spec fn words_distinct(cs: Seq<CandidateView>) -> bool {
    forall|i: int, j: int| 0 <= i < j < cs.len() ==> cs[i].word != cs[j].word
}

proof fn lemma_dedup_distinct(cs: Seq<CandidateView>)
    ensures
        words_distinct(dedup_words(cs)),
        dedup_words(cs).len() == 0 <==> cs.len() == 0,
    decreases cs.len(),
{
    if cs.len() > 0 {
        lemma_dedup_distinct(cs.drop_last());
        let d = dedup_words(cs.drop_last());
        if !has_word(d, cs.last().word) {
            assert forall|i: int, j: int| 0 <= i < j < d.push(cs.last()).len() implies d.push(cs.last())[i].word
                != d.push(cs.last())[j].word by {
                if j == d.len() {
                    assert(d.push(cs.last())[i] == d[i]);
                }
            }
        } else {
            let i = choose|i: int| 0 <= i < d.len() && (#[trigger] d[i]).word == cs.last().word;
        }
    }
}

/// Merges the entries found, keeping the first candidate of each word.
fn merge_candidates(found: &Vec<Option<DictEntry>>) -> (r: Vec<Candidate>)
    ensures
        cands_view(r@) == dedup_words(all_candidates(found_view(found@))),
{
    let ghost fv = found_view(found@);
    let mut all: Vec<Candidate> = Vec::new();
    let mut i: usize = 0;
    while i < found.len()
        invariant
            i <= found.len(),
            fv == found_view(found@),
            cands_view(all@) == all_candidates(fv.take(i as int)),
        decreases found.len() - i,
    {
        assert(fv.take(i + 1).drop_last() =~= fv.take(i as int));
        assert(fv.take(i + 1).last() == fv[i as int]);
        match &found[i] {
            Some(e) => {
                let ghost a0 = cands_view(all@);
                let mut more = clone_candidates(e.candidates.as_slice());
                let ghost mv = cands_view(more@);
                all.append(&mut more);
                assert(cands_view(all@) =~= a0 + mv);
            },
            None => {
                assert(all_candidates(fv.take(i + 1)) =~= all_candidates(fv.take(i as int)));
            },
        }
        i += 1;
    }
    assert(fv.take(found.len() as int) =~= fv);
    let ghost av = cands_view(all@);
    let mut out: Vec<Candidate> = Vec::new();
    let mut k: usize = 0;
    while k < all.len()
        invariant
            k <= all.len(),
            av == cands_view(all@),
            cands_view(out@) == dedup_words(av.take(k as int)),
        decreases all.len() - k,
    {
        assert(av.take(k + 1).drop_last() =~= av.take(k as int));
        assert(av.take(k + 1).last() == av[k as int]);
        let ghost ov = cands_view(out@);
        let mut seen = false;
        let mut j: usize = 0;
        while j < out.len()
            invariant
                j <= out.len(),
                k < all.len(),
                av == cands_view(all@),
                ov == cands_view(out@),
                seen == exists|x: int| 0 <= x < j && (#[trigger] ov[x]).word == av[k as int].word,
            decreases out.len() - j,
        {
            if !seen && str_eq(out[j].word.as_str(), all[k].word.as_str()) {
                seen = true;
            }
            proof {
                if seen && !(exists|x: int| 0 <= x < j && (#[trigger] ov[x]).word == av[k as int].word) {
                    assert(ov[j as int].word == av[k as int].word);
                }
            }
            j += 1;
        }
        assert(seen == has_word(ov, av[k as int].word));
        if !seen {
            out.push(all[k].clone());
            assert(cands_view(out@) =~= ov.push(av[k as int]));
        }
        k += 1;
    }
    assert(av.take(all.len() as int) =~= av);
    out
}

// ── Completion lists ─────────────────────────────────────────────────────────

/// `ws` without words that occurred earlier.
pub open spec fn dedup_strs(ws: Seq<Seq<char>>) -> Seq<Seq<char>>
    decreases ws.len(),
{
    if ws.len() == 0 {
        Seq::empty()
    } else {
        let d = dedup_strs(ws.drop_last());
        if d.contains(ws.last()) {
            d
        } else {
            d.push(ws.last())
        }
    }
}

/// Completion number `start` of the merged lists and the index after it.
pub open spec fn pick_spec(merged: Seq<Seq<char>>, start: int) -> Option<(Seq<char>, int)> {
    if 0 <= start < merged.len() {
        Some((merged[start], start + 1))
    } else {
        None
    }
}

/// Merges the completion lists of the dictionaries (first occurrence wins)
/// and picks completion number `start`.
fn pick_completion(lists: &Vec<Vec<String>>, start: usize) -> (r: Option<(String, usize)>)
    ensures
        match r {
            Some((w, n)) => pick_spec(dedup_strs(flat_strs(lists_view(lists@))), start as int) == Some((w@, n as int)),
            None => pick_spec(dedup_strs(flat_strs(lists_view(lists@))), start as int) is None,
        },
{
    let ghost lv = lists_view(lists@);
    let mut all: Vec<String> = Vec::new();
    let mut i: usize = 0;
    while i < lists.len()
        invariant
            i <= lists.len(),
            lv == lists_view(lists@),
            crate::dict::entry::strs_view(all@) == flat_strs(lv.take(i as int)),
        decreases lists.len() - i,
    {
        assert(lv.take(i + 1).drop_last() =~= lv.take(i as int));
        let ghost a0 = crate::dict::entry::strs_view(all@);
        let mut more = crate::dict::entry::clone_strings(&lists[i]);
        let ghost mv = crate::dict::entry::strs_view(more@);
        all.append(&mut more);
        assert(crate::dict::entry::strs_view(all@) =~= a0 + mv);
        i += 1;
    }
    assert(lv.take(lists.len() as int) =~= lv);
    let ghost av = crate::dict::entry::strs_view(all@);
    let mut out: Vec<String> = Vec::new();
    let mut k: usize = 0;
    while k < all.len()
        invariant
            k <= all.len(),
            av == crate::dict::entry::strs_view(all@),
            crate::dict::entry::strs_view(out@) == dedup_strs(av.take(k as int)),
        decreases all.len() - k,
    {
        assert(av.take(k + 1).drop_last() =~= av.take(k as int));
        assert(av.take(k + 1).last() == av[k as int]);
        let ghost ov = crate::dict::entry::strs_view(out@);
        let seen = crate::dict::file::contains_str_pub(&out, all[k].as_str());
        if !seen {
            out.push(all[k].clone());
            assert(crate::dict::entry::strs_view(out@) =~= ov.push(av[k as int]));
        }
        k += 1;
    }
    assert(av.take(all.len() as int) =~= av);
    if start < out.len() {
        let w = out[start].clone();
        Some((w, start + 1))
    } else {
        None
    }
}

pub open spec fn lists_view(v: Seq<Vec<String>>) -> Seq<Seq<Seq<char>>> {
    v.map_values(|l: Vec<String>| crate::dict::entry::strs_view(l@))
}

pub open spec fn flat_strs(ls: Seq<Seq<Seq<char>>>) -> Seq<Seq<char>>
    decreases ls.len(),
{
    if ls.len() == 0 {
        Seq::empty()
    } else {
        flat_strs(ls.drop_last()) + ls.last()
    }
}

// ── Conversion, registration ─────────────────────────────────────────────────

/// Everything but the dictionaries is the same.
pub(crate) open spec fn same_but_dicts(o: SkkEngine, f: SkkEngine) -> bool {
    &&& keeps_config(o, f)
    &&& f.phase == o.phase
    &&& f.kana_state == o.kana_state
    &&& f.register_stack == o.register_stack
    &&& f.midashi_display_mode == o.midashi_display_mode
    &&& f.midashi_is_abbrev == o.midashi_is_abbrev
    &&& f.completion == o.completion
    &&& f.conversion_trigger == o.conversion_trigger
}

/// The candidate page shown in listing mode, or `None` in inline mode.
pub open spec fn listing_spec(cands: Seq<CandidateView>, index: int, inline_count: int, sel: Seq<char>) -> Option<ActionView> {
    if sel.len() == 0 || index < inline_count {
        None
    } else {
        let n = if cands.len() - index < sel.len() { cands.len() - index } else { sel.len() as int };
        Some(ActionView::ShowCandidates(cands.subrange(index, index + n), 0, sel.take(n)))
    }
}

/// The text committed for a candidate.
pub open spec fn commit_text(c: CandidateView, okuri: Option<Seq<char>>) -> Seq<char> {
    c.word + crate::engine::preedit::opt_or_empty(okuri)
}

/// Committing a candidate of a conversion with okurigana kana `k` commits
/// the candidate's word followed by `k`; without okurigana, the word alone.
pub proof fn lemma_commit_is_word_then_okuri(c: CandidateView, k: Seq<char>)
    ensures
        commit_text(c, Some(k)).len() == c.word.len() + k.len(),
        commit_text(c, Some(k)).take(c.word.len() as int) == c.word,
        commit_text(c, Some(k)).skip(c.word.len() as int) == k,
        commit_text(c, None) == c.word,
{
    assert(commit_text(c, Some(k)).take(c.word.len() as int) =~= c.word);
    assert(commit_text(c, Some(k)).skip(c.word.len() as int) =~= k);
    assert(commit_text(c, None) =~= c.word);
}

/// In the ▼ phase (outside registration) the preedit starts with ▼
/// followed by exactly the text a commit of the candidate at the current
/// index would produce.
pub proof fn lemma_selecting_preedit_shows_commit(
    midashi: Seq<char>,
    okuri: Option<Seq<char>>,
    okuri_key: Option<Seq<char>>,
    candidates: Seq<CandidateView>,
    index: nat,
    kana_state: Seq<char>,
    mode: crate::kana::table::KanaMode,
    completion: Option<crate::engine::preedit::CompletionView>,
    trigger: Option<Seq<char>>,
)
    requires
        index < candidates.len(),
    ensures
        ({
            let pe = crate::engine::preedit::spec_preedit(
                PhaseView::Selecting { midashi, okuri, okuri_key, candidates, index },
                kana_state,
                mode,
                completion,
                trigger,
                Seq::empty(),
            ).0;
            let t = commit_text(candidates[index as int], okuri);
            &&& pe.len() >= t.len() + 1
            &&& pe.take(t.len() + 1int) == seq!['▼'] + t
        }),
{
    let pe = crate::engine::preedit::spec_preedit(
        PhaseView::Selecting { midashi, okuri, okuri_key, candidates, index },
        kana_state,
        mode,
        completion,
        trigger,
        Seq::empty(),
    ).0;
    let t = commit_text(candidates[index as int], okuri);
    assert(pe.take(t.len() + 1int) =~= seq!['▼'] + t);
}

impl SkkEngine {
    /// Records `entry` in every dictionary (read-only ones refuse it).
    fn learn_all(&mut self, entry: &DictEntry)
        requires
            old(self).inv(),
        ensures
            final(self).inv(),
            same_but_dicts(*old(self), *final(self)),
    {
        let n = self.dict.len();
        let mut taken: Vec<Box<dyn crate::dict::traits::DictionaryProvider>> = Vec::new();
        let mut i: usize = 0;
        while i < n
            invariant
                i <= n,
                same_but_dicts(*old(self), *self),
                self.inv(),
            decreases n - i,
        {
            match self.dict.pop() {
                Some(mut d) => {
                    let _ = d.learn(entry.clone());
                    taken.push(d);
                },
                None => {},
            }
            i += 1;
        }
        let mut j: usize = 0;
        while j < n
            invariant
                j <= n,
                same_but_dicts(*old(self), *self),
                self.inv(),
            decreases n - j,
        {
            match taken.pop() {
                Some(d) => self.dict.push(d),
                None => {},
            }
            j += 1;
        }
    }

    /// Returns a `ShowCandidates` action for the current page when in listing mode,
    /// or `None` when `index` is still in inline mode.
    pub(crate) fn listing_show_action(&self, candidates: &[Candidate], index: usize) -> (r: Option<EngineAction>)
        requires
            index <= candidates@.len(),
        ensures
            match r {
                Some(a) => listing_spec(cands_view(candidates@), index as int, self.keybindings.inline_count as int, self.keybindings.selection_keys@) == Some(a@),
                None => listing_spec(cands_view(candidates@), index as int, self.keybindings.inline_count as int, self.keybindings.selection_keys@) is None,
            },
    {
        let inline_count = self.keybindings.inline_count;
        let sel_len = self.keybindings.selection_keys.len();
        if sel_len == 0 || index < inline_count {
            return None;
        }
        let n = if candidates.len() - index < sel_len { candidates.len() - index } else { sel_len };
        let mut page: Vec<Candidate> = Vec::new();
        let mut keys = String::new();
        let mut i: usize = 0;
        let total = candidates.len();
        while i < n
            invariant
                i <= n,
                total == candidates@.len(),
                index + n <= candidates@.len(),
                n <= self.keybindings.selection_keys@.len(),
                cands_view(page@) == cands_view(candidates@).subrange(index as int, index + i),
                keys@ == self.keybindings.selection_keys@.take(i as int),
            decreases n - i,
        {
            let ghost p0 = cands_view(page@);
            assert(index + i < candidates@.len());
            let c = candidates[index + i].clone();
            page.push(c);
            assert(cands_view(page@) =~= p0.push(cands_view(candidates@)[index + i]));
            assert(cands_view(page@) =~= cands_view(candidates@).subrange(index as int, index + i + 1));
            push_char(&mut keys, self.keybindings.selection_keys[i]);
            assert(keys@ =~= self.keybindings.selection_keys@.take(i + 1));
            i += 1;
        }
        Some(EngineAction::ShowCandidates(page, 0, keys))
    }

    /// Commits the candidate at `index`, records it in the dictionaries, and
    /// returns to the kana mode that was active before the conversion.
    pub(crate) fn commit_candidate(
        &mut self,
        midashi: &str,
        candidates: &[Candidate],
        index: usize,
        okuri: &Option<String>,
        okuri_key: &Option<String>,
    ) -> (r: Vec<EngineAction>)
        requires
            old(self).inv(),
            index < candidates@.len(),
        ensures
            final(self).inv(),
            keeps_config(*old(self), *final(self)),
            final(self).register_stack == old(self).register_stack,
            final(self).phase@ == phase_of_mode(old(self).midashi_display_mode),
            final(self).kana_state@.len() == 0,
            final(self).conversion_trigger is None,
            final(self).midashi_display_mode == old(self).midashi_display_mode,
            actions_view(r@) == seq![
                ActionView::HideCandidates,
                ActionView::Commit(commit_text(cands_view(candidates@)[index as int], opt_view(*okuri))),
                ActionView::ClearPreedit,
            ] + match old(self).conversion_trigger {
                Some(t) => seq![ActionView::Commit(t@)],
                None => Seq::empty(),
            },
            acts_wf(actions_view(r@)),
            no_passthrough(actions_view(r@)),
    {
        let chosen = candidates[index].clone();
        let mut commit = chosen.word.clone();
        match okuri {
            Some(o) => commit.append(o.as_str()),
            None => {},
        }
        let entry = DictEntry {
            midashi: midashi.to_owned(),
            okuri: crate::dict::entry::clone_opt_str(okuri_key),
            candidates: vec![chosen],
        };
        self.learn_all(&entry);
        self.phase = self.kana_phase_from_display_mode();
        self.kana_state = String::new();
        let mut actions = acts3(EngineAction::HideCandidates, EngineAction::Commit(commit), EngineAction::ClearPreedit);
        let trigger = self.conversion_trigger.take();
        match trigger {
            Some(t) => push_act(&mut actions, EngineAction::Commit(t)),
            None => {},
        }
        assert(actions_view(actions@) =~= seq![
                ActionView::HideCandidates,
                ActionView::Commit(commit_text(cands_view(candidates@)[index as int], opt_view(*okuri))),
                ActionView::ClearPreedit,
            ] + match old(self).conversion_trigger {
                Some(t) => seq![ActionView::Commit(t@)],
                None => Seq::<ActionView>::empty(),
            });
        actions
    }

    /// Enters registration mode from Selecting phase (no more candidates available).
    pub(crate) fn enter_register_from_selecting(
        &mut self,
        midashi: String,
        okuri: Option<String>,
        okuri_key: Option<String>,
    ) -> (r: Vec<EngineAction>)
        requires
            old(self).inv(),
        ensures
            final(self).inv(),
            keeps_config(*old(self), *final(self)),
            frames_view(final(self).register_stack@) == frames_view(old(self).register_stack@).push(FrameView {
                midashi: midashi@,
                okuri_key: opt_view(okuri_key),
                okuri_kana: opt_view(okuri),
                committed: Seq::empty(),
                cursor: 0,
                is_abbrev: old(self).midashi_is_abbrev,
            }),
            final(self).phase@ == PhaseView::Hiragana,
            final(self).kana_state@.len() == 0,
            final(self).conversion_trigger is None,
            actions_view(r@) == seq![ActionView::HideCandidates, ActionView::UpdatePreedit(final(self).preedit_view().0, final(self).preedit_view().1)],
            acts_wf(actions_view(r@)),
            no_passthrough(actions_view(r@)),
    {
        let ghost fs = frames_view(self.register_stack@);
        let frame = RegisterFrame {
            midashi,
            okuri_key,
            okuri_kana: okuri,
            committed: String::new(),
            cursor: 0,
            is_abbrev: self.midashi_is_abbrev,
        };
        proof {
            assert(frame@.committed.take(0) =~= Seq::<char>::empty());
            crate::engine::register::lemma_frame_wf_at(frame@, 0);
        }
        self.register_stack.push(frame);
        assert(frames_view(self.register_stack@) =~= fs.push(frame@));
        self.phase = SkkPhase::Hiragana;
        self.kana_state = String::new();
        self.conversion_trigger = None;
        let p = self.preedit_action();
        acts2(EngineAction::HideCandidates, p)
    }
}

// ── Registration ─────────────────────────────────────────────────────────────

/// The texts of the commit actions, concatenated.
pub open spec fn commits_of(acts: Seq<ActionView>) -> Seq<char>
    decreases acts.len(),
{
    if acts.len() == 0 {
        Seq::empty()
    } else {
        commits_of(acts.drop_last()) + match acts.last() {
            ActionView::Commit(t) => t,
            _ => Seq::empty(),
        }
    }
}

/// The candidate-window and status actions, in order.
pub open spec fn kept_of(acts: Seq<ActionView>) -> Seq<ActionView>
    decreases acts.len(),
{
    if acts.len() == 0 {
        Seq::empty()
    } else {
        kept_of(acts.drop_last()) + match acts.last() {
            ActionView::ShowCandidates(..) | ActionView::HideCandidates | ActionView::UpdateStatus(_) => seq![acts.last()],
            _ => Seq::empty(),
        }
    }
}

/// Whether an action commits or touches the preedit.
pub open spec fn touches_preedit(a: ActionView) -> bool {
    a is Commit || a is ClearPreedit || a is UpdatePreedit
}

pub open spec fn needs_preedit(acts: Seq<ActionView>) -> bool {
    exists|i: int| 0 <= i < acts.len() && touches_preedit(#[trigger] acts[i])
}

proof fn lemma_kept_no_pass(acts: Seq<ActionView>)
    requires
        acts_wf(acts),
    ensures
        no_passthrough(kept_of(acts)),
        acts_wf(kept_of(acts)),
    decreases acts.len(),
{
    if acts.len() > 0 {
        assert(act_wf(acts[acts.len() - 1]));
        lemma_kept_no_pass(acts.drop_last());
        let a = kept_of(acts.drop_last());
        let b = match acts.last() {
            ActionView::ShowCandidates(..) | ActionView::HideCandidates | ActionView::UpdateStatus(_) => seq![acts.last()],
            _ => Seq::<ActionView>::empty(),
        };
        lemma_no_pass_concat(a, b);
        lemma_acts_wf_concat(a, b);
    }
}

/// Inserting two texts one after the other inserts their concatenation.
pub proof fn lemma_frame_insert_twice(f: FrameView, a: Seq<char>, b: Seq<char>)
    requires
        frame_wf(f),
    ensures
        frame_insert(frame_insert(f, a), b) == frame_insert(f, a + b),
{
    let k = crate::engine::register::frame_pos(f);
    crate::engine::register::lemma_frame_pos_spec(f);
    let f1 = frame_insert(f, a);
    let c1 = f.committed.take(k) + a;
    assert(f1.committed.take(c1.len() as int) =~= c1);
    crate::text::lemma_byte_len_concat(f.committed.take(k), a);
    crate::engine::register::lemma_frame_pos(f1, c1.len() as int);
    assert(f1.committed.take(c1.len() as int) + b + f1.committed.skip(c1.len() as int) =~= f.committed.take(k) + (a + b) + f.committed.skip(k));
    crate::text::lemma_byte_len_concat(a, b);
}

fn clone_action(a: &EngineAction) -> (r: EngineAction)
    ensures
        r@ == a@,
{
    match a {
        EngineAction::Commit(s) => EngineAction::Commit(s.clone()),
        EngineAction::UpdatePreedit(p) => EngineAction::UpdatePreedit(crate::engine::Preedit { text: p.text.clone(), cursor: p.cursor }),
        EngineAction::ClearPreedit => EngineAction::ClearPreedit,
        EngineAction::ShowCandidates(cs, i, k) => EngineAction::ShowCandidates(clone_candidates(cs.as_slice()), *i, k.clone()),
        EngineAction::HideCandidates => EngineAction::HideCandidates,
        EngineAction::UpdateStatus(s) => EngineAction::UpdateStatus(s.clone()),
        EngineAction::Passthrough => EngineAction::Passthrough,
    }
}

/// The top frame after `op`; the frames below unchanged.
pub open spec fn with_top(stack: Seq<FrameView>, top: FrameView) -> Seq<FrameView> {
    stack.drop_last().push(top)
}

impl SkkEngine {
    /// Inserts `t` at the cursor of the innermost registration frame.
    pub(crate) fn top_insert(&mut self, t: &str)
        requires
            old(self).inv(),
            old(self).register_stack@.len() > 0,
        ensures
            final(self).inv(),
            keeps_config(*old(self), *final(self)),
            frames_view(final(self).register_stack@) == with_top(
                frames_view(old(self).register_stack@),
                frame_insert(frames_view(old(self).register_stack@).last(), t@),
            ),
            final(self).phase == old(self).phase,
            final(self).kana_state == old(self).kana_state,
            final(self).midashi_display_mode == old(self).midashi_display_mode,
            final(self).midashi_is_abbrev == old(self).midashi_is_abbrev,
            final(self).completion == old(self).completion,
            final(self).conversion_trigger == old(self).conversion_trigger,
    {
        let ghost fs = frames_view(self.register_stack@);
        let mut f = self.register_stack.pop().unwrap();
        assert(frame_wf(f@)) by {
            assert(old(self).register_stack@[old(self).register_stack@.len() - 1] == f);
        }
        frame_insert_exec(&mut f, t);
        self.register_stack.push(f);
        proof {
            assert(frames_view(self.register_stack@) =~= with_top(fs, frame_insert(fs.last(), t@)));
            assert forall|i: int| 0 <= i < self.register_stack@.len() implies frame_wf(#[trigger] self.register_stack@[i]@) by {
                if i < self.register_stack@.len() - 1 {
                    assert(self.register_stack@[i] == old(self).register_stack@[i]);
                }
            }
        }
    }

    /// Applies one cursor edit to the innermost registration frame.
    pub(crate) fn top_edit(&mut self, which: u8)
        requires
            old(self).inv(),
            which < 4,
        ensures
            final(self).inv(),
            keeps_config(*old(self), *final(self)),
            old(self).register_stack@.len() == 0 ==> final(self).register_stack == old(self).register_stack,
            old(self).register_stack@.len() > 0 ==> frames_view(final(self).register_stack@) == with_top(
                frames_view(old(self).register_stack@),
                edit_frame(frames_view(old(self).register_stack@).last(), which),
            ),
            final(self).phase == old(self).phase,
            final(self).kana_state == old(self).kana_state,
            final(self).midashi_display_mode == old(self).midashi_display_mode,
            final(self).midashi_is_abbrev == old(self).midashi_is_abbrev,
            final(self).completion == old(self).completion,
            final(self).conversion_trigger == old(self).conversion_trigger,
    {
        if self.register_stack.len() == 0 {
            return;
        }
        let ghost fs = frames_view(self.register_stack@);
        let mut f = self.register_stack.pop().unwrap();
        assert(frame_wf(f@)) by {
            assert(old(self).register_stack@[old(self).register_stack@.len() - 1] == f);
        }
        if which == 0 {
            frame_backspace_exec(&mut f);
        } else if which == 1 {
            frame_delete_exec(&mut f);
        } else if which == 2 {
            frame_left_exec(&mut f);
        } else {
            frame_right_exec(&mut f);
        }
        let ghost nf = f@;
        self.register_stack.push(f);
        proof {
            assert(frames_view(self.register_stack@) =~= with_top(fs, nf));
            assert forall|i: int| 0 <= i < self.register_stack@.len() implies frame_wf(#[trigger] self.register_stack@[i]@) by {
                if i < self.register_stack@.len() - 1 {
                    assert(self.register_stack@[i] == old(self).register_stack@[i]);
                }
            }
        }
    }

    /// Redirects the commits of sub-phases into the registration buffer
    /// while registering; candidate-window and status actions pass through,
    /// `Passthrough` is dropped, and a preedit update is always included
    /// when anything else happened or nothing is left.
    pub(crate) fn intercept_for_register(&mut self, raw: Vec<EngineAction>) -> (r: Vec<EngineAction>)
        requires
            old(self).inv(),
            acts_wf(actions_view(raw@)),
            old(self).register_stack@.len() > 0,
        ensures
            final(self).inv(),
            keeps_config(*old(self), *final(self)),
            frames_view(final(self).register_stack@) == with_top(
                frames_view(old(self).register_stack@),
                frame_insert(frames_view(old(self).register_stack@).last(), commits_of(actions_view(raw@))),
            ),
            final(self).phase == old(self).phase,
            final(self).kana_state == old(self).kana_state,
            final(self).midashi_display_mode == old(self).midashi_display_mode,
            actions_view(r@) == kept_of(actions_view(raw@)) + (if needs_preedit(actions_view(raw@)) || kept_of(actions_view(raw@)).len() == 0 {
                seq![ActionView::UpdatePreedit(final(self).preedit_view().0, final(self).preedit_view().1)]
            } else {
                Seq::empty()
            }),
            acts_wf(actions_view(r@)),
            no_passthrough(actions_view(r@)),
            actions_view(r@).len() > 0,
    {
        let ghost rv = actions_view(raw@);
        let ghost fs = frames_view(self.register_stack@);
        let mut result: Vec<EngineAction> = Vec::new();
        let mut need = false;
        let mut i: usize = 0;
        assert(rv.take(0) =~= Seq::<ActionView>::empty());
        assert(fs.last().committed.take(frame_pos_of(fs.last())) + Seq::<char>::empty() + fs.last().committed.skip(frame_pos_of(fs.last())) =~= fs.last().committed);
        proof {
            let f = fs.last();
            assert(frame_wf(f)) by {
                assert(old(self).register_stack@[old(self).register_stack@.len() - 1]@ == f);
            }
            assert(frame_insert(f, Seq::empty()) =~= f) by {
                let k = crate::engine::register::frame_pos(f);
                crate::engine::register::lemma_frame_pos_spec(f);
                assert(f.committed.take(k) + Seq::<char>::empty() + f.committed.skip(k) =~= f.committed);
                assert(crate::text::byte_len(Seq::<char>::empty()) == 0) by {
                    assert(vstd::utf8::encode_utf8(Seq::<char>::empty()) =~= Seq::<u8>::empty());
                }
            }
            assert(frames_view(self.register_stack@) =~= with_top(fs, f));
        }
        while i < raw.len()
            invariant
                i <= raw.len(),
                rv == actions_view(raw@),
                self.inv(),
                self.register_stack@.len() > 0,
                keeps_config(*old(self), *self),
                self.phase == old(self).phase,
                self.kana_state == old(self).kana_state,
                self.midashi_display_mode == old(self).midashi_display_mode,
                self.midashi_is_abbrev == old(self).midashi_is_abbrev,
                self.completion == old(self).completion,
                self.conversion_trigger == old(self).conversion_trigger,
                frames_view(self.register_stack@) == with_top(fs, frame_insert(fs.last(), commits_of(rv.take(i as int)))),
                actions_view(result@) == kept_of(rv.take(i as int)),
                need == needs_preedit(rv.take(i as int)),
                frame_wf(fs.last()),
            decreases raw.len() - i,
        {
            let ghost t0 = rv.take(i as int);
            assert(rv.take(i + 1).drop_last() =~= t0);
            assert(rv.take(i + 1).last() == rv[i as int]);
            let ghost before = frames_view(self.register_stack@);
            match &raw[i] {
                EngineAction::Commit(text) => {
                    self.top_insert(text.as_str());
                    proof {
                        lemma_frame_insert_twice(fs.last(), commits_of(t0), text@);
                        assert(before.last() == frame_insert(fs.last(), commits_of(t0)));
                        assert(frames_view(self.register_stack@) =~= with_top(fs, frame_insert(fs.last(), commits_of(rv.take(i + 1)))));
                    }
                    need = true;
                },
                EngineAction::ClearPreedit | EngineAction::UpdatePreedit(_) => {
                    assert(commits_of(rv.take(i + 1)) =~= commits_of(t0));
                    need = true;
                },
                EngineAction::ShowCandidates(..) | EngineAction::HideCandidates | EngineAction::UpdateStatus(_) => {
                    assert(commits_of(rv.take(i + 1)) =~= commits_of(t0));
                    let a = clone_action(&raw[i]);
                    push_act(&mut result, a);
                },
                EngineAction::Passthrough => {
                    assert(commits_of(rv.take(i + 1)) =~= commits_of(t0));
                    assert(kept_of(rv.take(i + 1)) =~= kept_of(t0));
                },
            }
            proof {
                let t1 = rv.take(i + 1);
                if needs_preedit(t0) {
                    let x = choose|x: int| 0 <= x < t0.len() && touches_preedit(#[trigger] t0[x]);
                    assert(t1[x] == t0[x]);
                }
                if needs_preedit(t1) {
                    let x = choose|x: int| 0 <= x < t1.len() && touches_preedit(#[trigger] t1[x]);
                    if x < t0.len() {
                        assert(t0[x] == t1[x]);
                    }
                }
                if touches_preedit(rv[i as int]) {
                    assert(t1[i as int] == rv[i as int]);
                }
            }
            i += 1;
        }
        assert(rv.take(raw.len() as int) =~= rv);
        proof {
            lemma_kept_no_pass(rv);
        }
        if need || result.len() == 0 {
            let p = self.preedit_action();
            let ghost k0 = actions_view(result@);
            push_act(&mut result, p);
            proof {
                lemma_acts_wf_concat(k0, seq![p@]);
                lemma_no_pass_concat(k0, seq![p@]);
                assert(k0.push(p@) =~= k0 + seq![p@]);
            }
        } else {
            assert(actions_view(result@) =~= kept_of(rv) + Seq::<ActionView>::empty());
        }
        result
    }
}

/// One cursor edit: 0 backspace, 1 delete, 2 left, 3 right.
pub open spec fn edit_frame(f: FrameView, which: u8) -> FrameView {
    if which == 0 {
        frame_backspace(f)
    } else if which == 1 {
        frame_delete(f)
    } else if which == 2 {
        frame_left(f)
    } else {
        frame_right(f)
    }
}

pub open spec fn frame_pos_of(f: FrameView) -> int {
    crate::engine::register::frame_pos(f)
}

/// Everything but the completion ghost is the same.
pub(crate) open spec fn same_but_completion(o: SkkEngine, f: SkkEngine) -> bool {
    &&& keeps_config(o, f)
    &&& f.phase == o.phase
    &&& f.kana_state == o.kana_state
    &&& f.register_stack == o.register_stack
    &&& f.midashi_display_mode == o.midashi_display_mode
    &&& f.midashi_is_abbrev == o.midashi_is_abbrev
    &&& f.conversion_trigger == o.conversion_trigger
}

/// `r` is completion number `start` of the completion lists `ls`, one per
/// dictionary, merged in dictionary order with repeats dropped.
pub open spec fn picked_from(ls: Seq<Seq<Seq<char>>>, start: int, r: Option<(String, usize)>) -> bool {
    match r {
        Some((w, n)) => pick_spec(dedup_strs(flat_strs(ls)), start) == Some((w@, n as int)),
        None => pick_spec(dedup_strs(flat_strs(ls)), start) is None,
    }
}

impl SkkEngine {
    /// Completion number `start` among the merged completions of all
    /// dictionaries for `prefix` (first occurrence wins, dictionary order),
    /// with the index after it.
    pub(crate) fn find_completion(&self, prefix: &str, start: usize) -> (r: Option<(String, usize)>)
        ensures
            r matches Some((_, n)) ==> n == start + 1,
            exists|ls: Seq<Seq<Seq<char>>>| ls.len() == self.dict@.len() && #[trigger] picked_from(ls, start as int, r),
    {
        let mut lists: Vec<Vec<String>> = Vec::new();
        let mut i: usize = 0;
        while i < self.dict.len()
            invariant
                i <= self.dict.len(),
                lists@.len() == i,
            decreases self.dict.len() - i,
        {
            lists.push(self.dict[i].complete(prefix));
            i += 1;
        }
        let r = pick_completion(&lists, start);
        assert(picked_from(lists_view(lists@), start as int, r));
        r
    }

    /// Recomputes completion from scratch for the given `kana_buf` (index 0).
    pub(crate) fn update_completion(&mut self, kana_buf: &str)
        requires
            old(self).inv(),
        ensures
            final(self).inv(),
            same_but_completion(*old(self), *final(self)),
            kana_buf@.len() == 0 ==> final(self).completion is None,
            final(self).completion matches Some(c) ==> c.cycle_prefix@ == kana_buf@ && c.next_index == 1,
    {
        if kana_buf.is_empty() {
            self.completion = None;
            return;
        }
        self.completion = match self.find_completion(kana_buf, 0) {
            Some((preview, next_index)) => Some(CompletionState { cycle_prefix: kana_buf.to_owned(), next_index, preview }),
            None => None,
        };
    }

    /// Completes the topmost registration frame: saves it to the
    /// dictionaries and either commits it (outermost frame) or inserts it
    /// into the enclosing frame.
    pub(crate) fn finalize_register(&mut self) -> (r: Vec<EngineAction>)
        requires
            old(self).inv(),
            old(self).register_stack@.len() > 0,
        ensures
            final(self).inv(),
            keeps_config(*old(self), *final(self)),
            final(self).phase@ == PhaseView::Hiragana,
            final(self).kana_state@.len() == 0,
            ({
                let fs = frames_view(old(self).register_stack@);
                let f = fs.last();
                if fs.len() == 1 {
                    &&& final(self).register_stack@.len() == 0
                    &&& actions_view(r@) == seq![
                        ActionView::Commit(f.committed + crate::engine::preedit::opt_or_empty(f.okuri_kana)),
                        ActionView::ClearPreedit,
                    ]
                } else {
                    &&& frames_view(final(self).register_stack@) == with_top(
                        fs.drop_last(),
                        frame_insert(fs.drop_last().last(), f.committed),
                    )
                    &&& actions_view(r@) == seq![ActionView::UpdatePreedit(final(self).preedit_view().0, final(self).preedit_view().1)]
                }
            }),
            acts_wf(actions_view(r@)),
            no_passthrough(actions_view(r@)),
    {
        let ghost fs = frames_view(self.register_stack@);
        let frame = self.register_stack.pop().unwrap();
        proof {
            assert(frames_view(self.register_stack@) =~= fs.drop_last());
            assert forall|i: int| 0 <= i < self.register_stack@.len() implies frame_wf(#[trigger] self.register_stack@[i]@) by {
                assert(self.register_stack@[i] == old(self).register_stack@[i]);
            }
        }
        let entry = DictEntry {
            midashi: frame.midashi.clone(),
            okuri: crate::dict::entry::clone_opt_str(&frame.okuri_key),
            candidates: vec![Candidate::new(frame.committed.as_str())],
        };
        self.learn_all(&entry);
        if self.register_stack.len() == 0 {
            self.phase = SkkPhase::Hiragana;
            self.kana_state = String::new();
            let mut commit = frame.committed.clone();
            match &frame.okuri_kana {
                Some(k) => commit.append(k.as_str()),
                None => {},
            }
            acts2(EngineAction::Commit(commit), EngineAction::ClearPreedit)
        } else {
            self.top_insert(frame.committed.as_str());
            self.phase = SkkPhase::Hiragana;
            self.kana_state = String::new();
            self.preedit_only()
        }
    }

    /// Cancels the topmost registration frame and returns to ▽ midashi mode
    /// (or abbrev mode); if nested, returns to the outer frame instead.
    pub(crate) fn cancel_register(&mut self) -> (r: Vec<EngineAction>)
        requires
            old(self).inv(),
            old(self).register_stack@.len() > 0,
        ensures
            final(self).inv(),
            keeps_config(*old(self), *final(self)),
            cancel_outcome(*old(self), *final(self), actions_view(r@)),
            acts_wf(actions_view(r@)),
            no_passthrough(actions_view(r@)),
    {
        let ghost fs = frames_view(self.register_stack@);
        let frame = self.register_stack.pop().unwrap();
        proof {
            assert(frames_view(self.register_stack@) =~= fs.drop_last());
            assert forall|i: int| 0 <= i < self.register_stack@.len() implies frame_wf(#[trigger] self.register_stack@[i]@) by {
                assert(self.register_stack@[i] == old(self).register_stack@[i]);
            }
        }
        self.phase = SkkPhase::Hiragana;
        self.kana_state = String::new();
        if self.register_stack.len() == 0 {
            if frame.is_abbrev {
                self.phase = SkkPhase::Abbrev { buf: frame.midashi };
            } else {
                let m = frame.midashi.clone();
                self.phase = SkkPhase::Midashi { kana_buf: frame.midashi, roman_buf: String::new() };
                self.update_completion(m.as_str());
            }
            let p = self.preedit_action();
            acts2(EngineAction::HideCandidates, p)
        } else {
            self.preedit_only()
        }
    }

    /// Looks up `midashi` (with optional okurigana `(key, kana)`) and enters
    /// Selecting phase, or registration mode when nothing is found.
    pub(crate) fn start_conversion(&mut self, midashi: String, okuri: Option<(String, String)>) -> (r: Vec<EngineAction>)
        requires
            old(self).inv(),
        ensures
            final(self).inv(),
            keeps_config(*old(self), *final(self)),
            final(self).completion is None,
            final(self).midashi_display_mode == old(self).midashi_display_mode,
            final(self).conversion_trigger == old(self).conversion_trigger,
            ({
                let okuri_key = match okuri { Some(p) => Some(p.0@), None => None };
                let okuri_kana = match okuri { Some(p) => Some(p.1@), None => None };
                ||| {
                    &&& frames_view(final(self).register_stack@) == frames_view(old(self).register_stack@).push(FrameView {
                        midashi: midashi@,
                        okuri_key,
                        okuri_kana,
                        committed: Seq::empty(),
                        cursor: 0,
                        is_abbrev: old(self).midashi_is_abbrev,
                    })
                    &&& final(self).phase@ == PhaseView::Hiragana
                    &&& final(self).kana_state@.len() == 0
                    &&& actions_view(r@) == seq![ActionView::UpdatePreedit(final(self).preedit_view().0, final(self).preedit_view().1)]
                }
                ||| {
                    &&& final(self).register_stack == old(self).register_stack
                    &&& final(self).kana_state == old(self).kana_state
                    &&& final(self).phase@ matches PhaseView::Selecting { midashi: m, okuri: o, okuri_key: k, candidates, index }
                    &&& m == midashi@ && o == okuri_kana && k == okuri_key && index == 0
                    &&& candidates.len() > 0 && words_distinct(candidates)
                    &&& actions_view(r@) == (match listing_spec(candidates, 0, old(self).keybindings.inline_count as int, old(self).keybindings.selection_keys@) {
                        Some(a) => seq![a],
                        None => Seq::empty(),
                    }) + seq![ActionView::UpdatePreedit(final(self).preedit_view().0, final(self).preedit_view().1)]
                }
            }),
            exists|found: Seq<Option<crate::dict::entry::EntryView>>| #[trigger] conversion_from(
                *old(self),
                *final(self),
                midashi@,
                okuri_key_of(okuri),
                okuri_kana_of(okuri),
                actions_view(r@),
                found,
            ),
            acts_wf(actions_view(r@)),
            no_passthrough(actions_view(r@)),
    {
        let ghost o = *self;
        self.completion = None;
        let mut found: Vec<Option<DictEntry>> = Vec::new();
        {
            let key: Option<&str> = match &okuri {
                Some((k, _)) => Some(k.as_str()),
                None => None,
            };
            let mut i: usize = 0;
            while i < self.dict.len()
                invariant
                    i <= self.dict@.len(),
                    found@.len() == i,
                decreases self.dict.len() - i,
            {
                found.push(self.dict[i].lookup(midashi.as_str(), key));
                i += 1;
            }
        }
        let candidates = merge_candidates(&found);
        proof {
            lemma_dedup_distinct(all_candidates(found_view(found@)));
        }
        if candidates.len() == 0 {
            let (okuri_key, okuri_kana) = match okuri {
                Some((k, v)) => (Some(k), Some(v)),
                None => (None, None),
            };
            let ghost fs = frames_view(self.register_stack@);
            let frame = RegisterFrame {
                midashi,
                okuri_key,
                okuri_kana,
                committed: String::new(),
                cursor: 0,
                is_abbrev: self.midashi_is_abbrev,
            };
            proof {
                assert(frame@.committed.take(0) =~= Seq::<char>::empty());
                crate::engine::register::lemma_frame_wf_at(frame@, 0);
            }
            let ghost fr = frame@;
            self.register_stack.push(frame);
            assert(frames_view(self.register_stack@) =~= fs.push(fr));
            self.phase = SkkPhase::Hiragana;
            self.kana_state = String::new();
            let r = self.preedit_only();
            assert(conversion_from(o, *self, fr.midashi, fr.okuri_key, fr.okuri_kana, actions_view(r@), found_view(found@)));
            return r;
        }
        let (okuri_key, okuri_kana) = match okuri {
            Some((k, v)) => (Some(k), Some(v)),
            None => (None, None),
        };
        let show = self.listing_show_action(candidates.as_slice(), 0);
        self.phase = SkkPhase::Selecting { midashi, okuri: okuri_kana, okuri_key, candidates, index: 0 };
        let p = self.preedit_action();
        let r = match show {
            Some(a) => {
                proof {
                    lemma_show_wf(a@);
                }
                let r = acts2(a, p);
                assert(actions_view(r@) =~= seq![a@] + seq![p@]);
                r
            },
            None => {
                let r = acts1(p);
                assert(actions_view(r@) =~= Seq::<ActionView>::empty() + seq![p@]);
                r
            },
        };
        assert(found_view(found@).len() == o.dict@.len());
        assert(conversion_from(o, *self, self.phase@->Selecting_midashi, self.phase@->Selecting_okuri_key,
            self.phase@->Selecting_okuri, actions_view(r@), found_view(found@)));
        r
    }
}

/// The dictionary key of an okurigana pair.
pub open spec fn okuri_key_of(okuri: Option<(String, String)>) -> Option<Seq<char>> {
    match okuri {
        Some(p) => Some(p.0@),
        None => None,
    }
}

/// The kana of an okurigana pair.
pub open spec fn okuri_kana_of(okuri: Option<(String, String)>) -> Option<Seq<char>> {
    match okuri {
        Some(p) => Some(p.1@),
        None => None,
    }
}

/// What cancelling the innermost registration does: the frame is dropped;
/// the outermost one goes back to its reading in ▽ mode (or abbrev mode),
/// an inner one back to the enclosing registration.
pub(crate) open spec fn cancel_outcome(o: SkkEngine, f: SkkEngine, r: Seq<ActionView>) -> bool {
    let top = frames_view(o.register_stack@).last();
    &&& frames_view(f.register_stack@) == frames_view(o.register_stack@).drop_last()
    &&& f.kana_state@.len() == 0
    &&& if o.register_stack@.len() == 1 {
        &&& f.phase@ == (if top.is_abbrev {
            PhaseView::Abbrev { buf: top.midashi }
        } else {
            PhaseView::Midashi { kana_buf: top.midashi, roman_buf: Seq::empty() }
        })
        &&& r == seq![ActionView::HideCandidates, pre_of(f)]
    } else {
        &&& f.phase@ == PhaseView::Hiragana
        &&& r == seq![pre_of(f)]
    }
}

/// What a conversion of `midashi` does when the dictionaries, consulted in
/// order, answered `found`: with no candidate it opens a registration frame,
/// otherwise it selects the first of the candidates merged in that order.
pub(crate) open spec fn conversion_from(
    o: SkkEngine,
    f: SkkEngine,
    midashi: Seq<char>,
    okuri_key: Option<Seq<char>>,
    okuri_kana: Option<Seq<char>>,
    r: Seq<ActionView>,
    found: Seq<Option<crate::dict::entry::EntryView>>,
) -> bool {
    let cands = dedup_words(all_candidates(found));
    &&& found.len() == o.dict@.len()
    &&& if cands.len() == 0 {
        &&& frames_view(f.register_stack@) == frames_view(o.register_stack@).push(FrameView {
            midashi,
            okuri_key,
            okuri_kana,
            committed: Seq::empty(),
            cursor: 0,
            is_abbrev: o.midashi_is_abbrev,
        })
        &&& f.phase@ == PhaseView::Hiragana
        &&& f.kana_state@.len() == 0
        &&& r == seq![pre_of(f)]
    } else {
        &&& f.register_stack == o.register_stack
        &&& f.phase@ == (PhaseView::Selecting { midashi, okuri: okuri_kana, okuri_key, candidates: cands, index: 0 })
        &&& r == (match listing_spec(cands, 0, o.keybindings.inline_count as int, o.keybindings.selection_keys@) {
            Some(a) => seq![a],
            None => Seq::empty(),
        }) + seq![pre_of(f)]
    }
}

proof fn lemma_show_wf(a: ActionView)
    requires
        a is ShowCandidates,
    ensures
        act_wf(a),
        !(a is Passthrough),
{
}

/// Everything but phase, kana state and completion is the same.
pub(crate) open spec fn same_frames(o: SkkEngine, f: SkkEngine) -> bool {
    &&& keeps_config(o, f)
    &&& f.register_stack == o.register_stack
    &&& f.midashi_display_mode == o.midashi_display_mode
}

/// The preedit action of the engine.
pub(crate) open spec fn pre_of(e: SkkEngine) -> ActionView {
    ActionView::UpdatePreedit(e.preedit_view().0, e.preedit_view().1)
}

impl SkkEngine {
    // ── Code input mode ───────────────────────────────────────────────────

    pub(crate) fn handle_code_input(&mut self, event: &KeyEvent, prefix: CodeInputPrefix, buf: String) -> (r: Vec<EngineAction>)
        requires
            old(self).inv(),
            old(self).phase@ == (PhaseView::CodeInput { prefix, buf: buf@ }),
        ensures
            final(self).inv(),
            same_frames(*old(self), *final(self)),
            final(self).conversion_trigger == old(self).conversion_trigger,
            acts_wf(actions_view(r@)),
            no_passthrough(actions_view(r@)),
            event.key == Key::Escape ==> final(self).phase@ == phase_of_mode(old(self).midashi_display_mode)
                && final(self).kana_state@.len() == 0 && actions_view(r@) == seq![ActionView::ClearPreedit],
            event.key == Key::BackSpace ==> (if buf@.len() > 0 {
                final(self).phase@ == (PhaseView::CodeInput { prefix, buf: buf@.drop_last() })
                    && actions_view(r@) == seq![pre_of(*final(self))]
            } else if prefix is Unicode {
                final(self).phase@ == (PhaseView::CodeInput { prefix: CodeInputPrefix::Jis, buf: Seq::empty() })
                    && actions_view(r@) == seq![pre_of(*final(self))]
            } else {
                final(self).phase@ == phase_of_mode(old(self).midashi_display_mode)
                    && actions_view(r@) == seq![ActionView::ClearPreedit]
            }),
            event.key != Key::Escape && event.key != Key::BackSpace && prefix is Jis && buf@.len() == 0
                && event.key == Key::Char('u') ==> final(self).phase@ == (PhaseView::CodeInput {
                prefix: CodeInputPrefix::Unicode,
                buf: Seq::empty(),
            }) && actions_view(r@) == seq![pre_of(*final(self))],
            event.key != Key::Escape && event.key != Key::BackSpace && !(prefix is Jis && buf@.len() == 0
                && event.key == Key::Char('u')) && (event.key == Key::Return || is_ctrl_char(*event, 'j'))
                ==> final(self).phase@ == phase_of_mode(old(self).midashi_display_mode) && actions_view(r@) == (match (if prefix is Jis {
                    spec_decode_jis(buf@)
                } else {
                    spec_decode_unicode(buf@)
                }) {
                    Some(t) => seq![ActionView::Commit(t), ActionView::ClearPreedit],
                    None => seq![ActionView::ClearPreedit],
                }),
    {
        let mut buf = buf;
        if event.key == Key::Escape {
            self.phase = self.kana_phase_from_display_mode();
            self.kana_state = String::new();
            return acts1(EngineAction::ClearPreedit);
        }
        if event.key == Key::BackSpace {
            if !buf.as_str().is_empty() {
                pop_char(&mut buf);
                self.phase = SkkPhase::CodeInput { prefix, buf };
            } else if prefix == CodeInputPrefix::Unicode {
                self.phase = SkkPhase::CodeInput { prefix: CodeInputPrefix::Jis, buf: String::new() };
            } else {
                self.phase = self.kana_phase_from_display_mode();
                self.kana_state = String::new();
                return acts1(EngineAction::ClearPreedit);
            }
            return self.preedit_only();
        }
        if prefix == CodeInputPrefix::Jis && buf.as_str().is_empty() {
            if let Some('u') = event.printable_char() {
                self.phase = SkkPhase::CodeInput { prefix: CodeInputPrefix::Unicode, buf: String::new() };
                return self.preedit_only();
            }
        }
        if event.key == Key::Return || (event.key == Key::Char('j') && ctrl_held(event)) {
            let result = match prefix {
                CodeInputPrefix::Jis => decode_jis_code(buf.as_str()),
                CodeInputPrefix::Unicode => decode_unicode_code(buf.as_str()),
            };
            self.phase = self.kana_phase_from_display_mode();
            self.kana_state = String::new();
            return match result {
                Some(s) => acts2(EngineAction::Commit(s), EngineAction::ClearPreedit),
                None => acts1(EngineAction::ClearPreedit),
            };
        }
        if let Some(ch) = event.printable_char() {
            if is_ascii_hexdigit(ch) && !ctrl_held(event) {
                push_char(&mut buf, to_ascii_lowercase(ch));
                self.phase = SkkPhase::CodeInput { prefix, buf };
                return self.preedit_only();
            }
        }
        self.preedit_only()
    }

    // ── Abbrev mode ───────────────────────────────────────────────────────

    pub(crate) fn handle_abbrev(&mut self, event: &KeyEvent, buf: String) -> (r: Vec<EngineAction>)
        requires
            old(self).inv(),
            old(self).phase@ == (PhaseView::Abbrev { buf: buf@ }),
        ensures
            final(self).inv(),
            keeps_config(*old(self), *final(self)),
            final(self).midashi_display_mode == old(self).midashi_display_mode,
            acts_wf(actions_view(r@)),
            stack_grows_by_one(*old(self), *final(self)),
            event.key == Key::Escape ==> final(self).phase@ == phase_of_mode(old(self).midashi_display_mode)
                && actions_view(r@) == seq![ActionView::ClearPreedit],
            event.key == Key::BackSpace ==> (if buf@.len() == 0 {
                final(self).phase@ == phase_of_mode(old(self).midashi_display_mode)
                    && actions_view(r@) == seq![ActionView::ClearPreedit]
            } else {
                final(self).phase@ == (PhaseView::Abbrev { buf: buf@.drop_last() })
                    && actions_view(r@) == seq![pre_of(*final(self))]
            }),
            is_ctrl_char(*event, 'j') ==> final(self).phase@ == phase_of_mode(old(self).midashi_display_mode)
                && actions_view(r@) == (if buf@.len() == 0 {
                    seq![ActionView::ClearPreedit]
                } else {
                    seq![ActionView::Commit(buf@), ActionView::ClearPreedit]
                }),
            event.key == Key::Return ==> final(self).phase@ == phase_of_mode(old(self).midashi_display_mode)
                && actions_view(r@) == (if buf@.len() == 0 {
                    seq![ActionView::ClearPreedit, ActionView::Passthrough]
                } else {
                    seq![ActionView::Commit(buf@), ActionView::ClearPreedit, ActionView::Passthrough]
                }),
            (event.key matches Key::Char(c) && !has_ctrl(event.modifiers)) ==> final(self).phase@ == (PhaseView::Abbrev {
                buf: buf@.push(event.key->Char_0),
            }) && actions_view(r@) == seq![pre_of(*final(self))],
            event.key != Key::Return ==> no_passthrough(actions_view(r@)),
    {
        let mut buf = buf;
        let ghost fs = frames_view(self.register_stack@);
        assert(fs.take(fs.len() as int) =~= fs);
        if event.key == Key::Escape {
            self.phase = self.kana_phase_from_display_mode();
            return acts1(EngineAction::ClearPreedit);
        }
        if event.key == Key::BackSpace {
            if buf.as_str().is_empty() {
                self.phase = self.kana_phase_from_display_mode();
                return acts1(EngineAction::ClearPreedit);
            }
            pop_char(&mut buf);
            self.phase = SkkPhase::Abbrev { buf };
            return self.preedit_only();
        }
        if event.key == Key::Space {
            if buf.as_str().is_empty() {
                self.phase = SkkPhase::Abbrev { buf };
                return self.preedit_only();
            }
            let r = self.start_conversion(buf, None);
            assert(frames_view(self.register_stack@).take(fs.len() as int) =~= fs);
            return r;
        }
        if event.key == Key::Char('j') && ctrl_held(event) {
            self.phase = self.kana_phase_from_display_mode();
            if buf.as_str().is_empty() {
                return acts1(EngineAction::ClearPreedit);
            }
            return acts2(EngineAction::Commit(buf), EngineAction::ClearPreedit);
        }
        if event.key == Key::Return {
            self.phase = self.kana_phase_from_display_mode();
            if buf.as_str().is_empty() {
                return acts2(EngineAction::ClearPreedit, EngineAction::Passthrough);
            }
            return acts3(EngineAction::Commit(buf), EngineAction::ClearPreedit, EngineAction::Passthrough);
        }
        let ch = match event.printable_char() {
            Some(c) => c,
            None => return self.preedit_only(),
        };
        if ctrl_held(event) {
            return self.preedit_only();
        }
        push_char(&mut buf, ch);
        self.phase = SkkPhase::Abbrev { buf };
        self.preedit_only()
    }
}

/// The kana mode of a kana phase.
pub open spec fn mode_of_phase(p: PhaseView) -> KanaMode {
    match p {
        PhaseView::Katakana => KanaMode::Katakana,
        PhaseView::HalfWidthKatakana => KanaMode::HalfWidth,
        _ => KanaMode::Hiragana,
    }
}

impl SkkEngine {
    // ── Okuri mode ────────────────────────────────────────────────────────

    pub(crate) fn handle_okuri(&mut self, event: &KeyEvent, midashi: String, okuri_prefix: char, kana_buf: String) -> (r: Vec<EngineAction>)
        requires
            old(self).inv(),
            old(self).phase@ == (PhaseView::Okuri { midashi: midashi@, okuri_prefix, kana_buf: kana_buf@ }),
        ensures
            final(self).inv(),
            keeps_config(*old(self), *final(self)),
            final(self).midashi_display_mode == old(self).midashi_display_mode,
            final(self).conversion_trigger == old(self).conversion_trigger,
            stack_grows_by_one(*old(self), *final(self)),
            acts_wf(actions_view(r@)),
            event.key == Key::Escape ==> final(self).phase@ == PhaseView::Hiragana && final(self).kana_state@.len() == 0
                && actions_view(r@) == seq![ActionView::ClearPreedit],
            event.key != Key::Escape && spec_printable_char(event.key) is None ==> final(self).phase == old(self).phase
                && actions_view(r@) == seq![ActionView::Passthrough],
            event.key != Key::Escape && spec_printable_char(event.key) is Some ==> no_passthrough(actions_view(r@)),
    {
        let mut kana_buf = kana_buf;
        proof {
            assert(frames_view(self.register_stack@).take(self.register_stack@.len() as int) =~= frames_view(self.register_stack@));
        }
        if event.key == Key::Escape {
            self.phase = SkkPhase::Hiragana;
            self.kana_state = String::new();
            return acts1(EngineAction::ClearPreedit);
        }
        let ch = match event.printable_char() {
            Some(c) => c,
            None => return acts1(EngineAction::Passthrough),
        };
        let lower = to_ascii_lowercase(ch);
        let state = self.kana_state.clone();
        let result = self.kana_table.transition(state.as_str(), lower, KanaMode::Hiragana);
        let ghost fs = frames_view(self.register_stack@);
        match result {
            TransitionResult::Advance { output, next_state } => {
                self.kana_state = next_state;
                if !output.as_str().is_empty() {
                    kana_buf.append(output.as_str());
                    if self.kana_state.as_str().is_empty() {
                        let okuri_key = char_to_string(self.kana_table.okuri_key(okuri_prefix));
                        self.phase = SkkPhase::Hiragana;
                        let r = self.start_conversion(midashi, Some((okuri_key, kana_buf)));
                        assert(frames_view(self.register_stack@).take(fs.len() as int) =~= fs);
                        return r;
                    }
                }
                self.phase = SkkPhase::Okuri { midashi, okuri_prefix, kana_buf };
                self.preedit_only()
            },
            TransitionResult::OkRetry { output, retry: _ } => {
                self.kana_state = String::new();
                if !output.as_str().is_empty() {
                    let okuri_key = char_to_string(self.kana_table.okuri_key(okuri_prefix));
                    kana_buf.append(output.as_str());
                    self.phase = SkkPhase::Hiragana;
                    let r = self.start_conversion(midashi, Some((okuri_key, kana_buf)));
                    assert(frames_view(self.register_stack@).take(fs.len() as int) =~= fs);
                    return r;
                }
                self.phase = SkkPhase::Okuri { midashi, okuri_prefix, kana_buf };
                self.preedit_only()
            },
            TransitionResult::NoMatch { flush: _, retry: _ } => {
                self.kana_state = String::new();
                self.phase = SkkPhase::Okuri { midashi, okuri_prefix, kana_buf };
                self.preedit_only()
            },
        }
    }
}

/// The frames below the top are kept, and at most one frame is added.
pub(crate) open spec fn stack_grows_by_one(o: SkkEngine, f: SkkEngine) -> bool {
    &&& f.register_stack@.len() <= o.register_stack@.len() + 1
    &&& f.register_stack@.len() >= o.register_stack@.len()
    &&& frames_view(f.register_stack@).take(o.register_stack@.len() as int) == frames_view(o.register_stack@)
}

impl SkkEngine {
    // ── Midashi mode ──────────────────────────────────────────────────────

    pub(crate) fn handle_midashi(&mut self, event: &KeyEvent, kana_buf: String, roman_buf: String, retry_ok: bool) -> (r: Vec<EngineAction>)
        requires
            old(self).inv(),
            old(self).phase@ == (PhaseView::Midashi { kana_buf: kana_buf@, roman_buf: roman_buf@ }),
            !retry_ok ==> old(self).kana_state@.len() == 0,
        ensures
            final(self).inv(),
            keeps_config(*old(self), *final(self)),
            final(self).midashi_display_mode == old(self).midashi_display_mode,
            stack_grows_by_one(*old(self), *final(self)),
            acts_wf(actions_view(r@)),
            event.key == Key::Escape ==> final(self).phase@ == PhaseView::Hiragana && final(self).kana_state@.len() == 0
                && final(self).completion is None && actions_view(r@) == seq![ActionView::ClearPreedit],
            event.key == Key::BackSpace ==> (if roman_buf@.len() > 0 {
                &&& final(self).phase@ == (PhaseView::Midashi { kana_buf: kana_buf@, roman_buf: roman_buf@.drop_last() })
                &&& final(self).kana_state@ == roman_buf@.drop_last()
                &&& actions_view(r@) == seq![pre_of(*final(self))]
            } else if kana_buf@.len() > 0 {
                &&& final(self).phase@ == (PhaseView::Midashi { kana_buf: kana_buf@.drop_last(), roman_buf: roman_buf@ })
                &&& final(self).kana_state@.len() == 0
                &&& actions_view(r@) == seq![pre_of(*final(self))]
            } else {
                &&& final(self).phase@ == PhaseView::Hiragana
                &&& final(self).kana_state@.len() == 0
                &&& actions_view(r@) == seq![ActionView::ClearPreedit]
            }),
            event.key == Key::Return ==> ({
                let k = if roman_buf@ == seq!['n'] { kana_buf@.push('ん') } else { kana_buf@ };
                &&& final(self).phase@ == phase_of_mode(old(self).midashi_display_mode)
                &&& final(self).kana_state@.len() == 0
                &&& actions_view(r@) == (if k.len() == 0 {
                    seq![ActionView::ClearPreedit, ActionView::Passthrough]
                } else {
                    seq![ActionView::Commit(k), ActionView::ClearPreedit, ActionView::Passthrough]
                })
            }),
            event.key == Key::Space ==> midashi_space_spec(*old(self), *final(self), kana_buf@, roman_buf@, actions_view(r@)),
            is_ctrl_char(*event, 'q') ==> {
                &&& final(self).phase@ == phase_of_mode(old(self).midashi_display_mode)
                &&& final(self).kana_state@.len() == 0
                &&& actions_view(r@) == (if kana_buf@.len() == 0 {
                    seq![ActionView::ClearPreedit]
                } else {
                    seq![ActionView::Commit(crate::kana::table::halfwidth_seq(kana_buf@)), ActionView::ClearPreedit]
                })
            },
            midashi_char_key(*event) ==> midashi_char_spec(
                *old(self),
                *final(self),
                *event,
                spec_printable_char(event.key).unwrap(),
                kana_buf@,
                roman_buf@,
                actions_view(r@),
            ),
        decreases (if retry_ok { 1int } else { 0int }), 2int,
    {
        let mut kana_buf = kana_buf;
        let mut roman_buf = roman_buf;
        let ghost o = *self;
        let ghost fs = frames_view(self.register_stack@);
        assert(fs.take(fs.len() as int) =~= fs);
        if event.key == Key::Escape {
            self.completion = None;
            self.phase = SkkPhase::Hiragana;
            self.kana_state = String::new();
            return acts1(EngineAction::ClearPreedit);
        }
        if event.key == Key::BackSpace {
            if !roman_buf.as_str().is_empty() {
                pop_char(&mut roman_buf);
                self.kana_state = roman_buf.clone();
            } else if !kana_buf.as_str().is_empty() {
                pop_char(&mut kana_buf);
                self.kana_state = String::new();
                self.update_completion(kana_buf.as_str());
            } else {
                self.completion = None;
                self.phase = SkkPhase::Hiragana;
                self.kana_state = String::new();
                return acts1(EngineAction::ClearPreedit);
            }
            self.phase = SkkPhase::Midashi { kana_buf, roman_buf };
            return self.preedit_only();
        }
        if event.key == Key::Return {
            if is_str(&roman_buf, 'n') {
                push_char(&mut kana_buf, 'ん');
            }
            self.completion = None;
            self.phase = self.kana_phase_from_display_mode();
            self.kana_state = String::new();
            if kana_buf.as_str().is_empty() {
                return acts2(EngineAction::ClearPreedit, EngineAction::Passthrough);
            }
            return acts3(EngineAction::Commit(kana_buf), EngineAction::ClearPreedit, EngineAction::Passthrough);
        }
        if event.key == Key::Space {
            if is_str(&roman_buf, 'n') {
                push_char(&mut kana_buf, 'ん');
            }
            self.completion = None;
            self.kana_state = String::new();
            if kana_buf.as_str().is_empty() {
                self.phase = SkkPhase::Hiragana;
                return acts1(EngineAction::ClearPreedit);
            }
            let ghost mid = *self;
            let ghost k = kana_buf@;
            let r = self.start_conversion(kana_buf, None);
            assert(frames_view(self.register_stack@).take(fs.len() as int) =~= fs);
            proof {
                let found = choose|found: Seq<Option<crate::dict::entry::EntryView>>| #[trigger] conversion_from(mid, *self, k, okuri_key_of(None), okuri_kana_of(None), actions_view(r@), found);
                assert(conversion_from(o, *self, k, None, None, actions_view(r@), found));
            }
            return r;
        }
        if event.key == Key::Tab {
            if roman_buf.as_str().is_empty() {
                match self.completion.take() {
                    Some(state) => {
                        let accepted = state.preview;
                        let next = self.find_completion(state.cycle_prefix.as_str(), state.next_index);
                        self.completion = match next {
                            Some((preview, next_index)) => Some(
                                CompletionState { cycle_prefix: state.cycle_prefix, next_index, preview },
                            ),
                            None => None,
                        };
                        self.kana_state = String::new();
                        self.phase = SkkPhase::Midashi { kana_buf: accepted, roman_buf: String::new() };
                    },
                    None => {
                        self.phase = SkkPhase::Midashi { kana_buf, roman_buf };
                    },
                }
            } else {
                self.phase = SkkPhase::Midashi { kana_buf, roman_buf };
            }
            return self.preedit_only();
        }
        if event.key == Key::Char('q') && ctrl_held(event) {
            self.completion = None;
            self.phase = self.kana_phase_from_display_mode();
            self.kana_state = String::new();
            if kana_buf.as_str().is_empty() {
                return acts1(EngineAction::ClearPreedit);
            }
            let halfwidth = crate::kana::table::hiragana_to_halfwidth(kana_buf.as_str());
            return acts2(EngineAction::Commit(halfwidth), EngineAction::ClearPreedit);
        }
        let ch = match event.printable_char() {
            Some(c) => c,
            None => return acts1(EngineAction::Passthrough),
        };
        self.midashi_char(event, ch, kana_buf, roman_buf, retry_ok)
    }

    /// A printable character in ▽ mode: conversion triggers, prefix
    /// conversion, the start of okurigana, or kana input.
    #[verifier::rlimit(50)]
    fn midashi_char(&mut self, event: &KeyEvent, ch: char, kana_buf: String, roman_buf: String, retry_ok: bool) -> (r: Vec<EngineAction>)
        requires
            old(self).inv(),
            old(self).phase@ == (PhaseView::Midashi { kana_buf: kana_buf@, roman_buf: roman_buf@ }),
            !retry_ok ==> old(self).kana_state@.len() == 0,
            spec_printable_char(event.key) == Some(ch),
        ensures
            final(self).inv(),
            keeps_config(*old(self), *final(self)),
            final(self).midashi_display_mode == old(self).midashi_display_mode,
            stack_grows_by_one(*old(self), *final(self)),
            acts_wf(actions_view(r@)),
            midashi_char_spec(*old(self), *final(self), *event, ch, kana_buf@, roman_buf@, actions_view(r@)),
        decreases (if retry_ok { 1int } else { 0int }), 1int,
    {
        let ghost o = *self;
        let ghost kb0 = kana_buf@;
        let ghost rb0 = roman_buf@;
        let mut kana_buf = kana_buf;
        let mut roman_buf = roman_buf;
        let ghost fs = frames_view(self.register_stack@);
        assert(fs.take(fs.len() as int) =~= fs);
        // ASCII conversion trigger characters (e.g. ',' '.').
        if is_ascii(ch) && self.kana_state.as_str().is_empty() && self.keybindings.conversion_trigger_chars.len() > 0
            && contains_char(self.keybindings.conversion_trigger_chars.as_slice(), ch) {
            if is_str(&roman_buf, 'n') {
                push_char(&mut kana_buf, 'ん');
            }
            self.completion = None;
            self.kana_state = String::new();
            let step = self.kana_table.transition("", ch, KanaMode::Hiragana);
            proof {
                reveal_strlit("");
                assert(""@ =~= Seq::<char>::empty());
            }
            let ghost step_v = step@;
            let trigger_output = match step {
                TransitionResult::Advance { output, next_state } => {
                    if !output.as_str().is_empty() && next_state.as_str().is_empty() {
                        output
                    } else {
                        char_to_string(ch)
                    }
                },
                _ => char_to_string(ch),
            };
            assert(trigger_output@ == trigger_text(step_v, ch));
            if kana_buf.as_str().is_empty() {
                self.phase = self.kana_phase_from_display_mode();
                return acts2(EngineAction::Commit(trigger_output), EngineAction::ClearPreedit);
            }
            self.conversion_trigger = Some(trigger_output);
            let ghost mid = *self;
            let ghost k = kana_buf@;
            let r = self.start_conversion(kana_buf, None);
            assert(frames_view(self.register_stack@).take(fs.len() as int) =~= fs);
            proof {
                let found = choose|found: Seq<Option<crate::dict::entry::EntryView>>| #[trigger] conversion_from(mid, *self, k, okuri_key_of(None), okuri_kana_of(None), actions_view(r@), found);
                assert(conversion_from(o, *self, k, None, None, actions_view(r@), found));
                assert(k == reading_with_n(kb0, rb0));

            }
            return r;
        }
        // '>', '<', '?' convert the midashi with a trailing '>' (prefix entries).
        if ch == '>' || ch == '<' || ch == '?' {
            self.completion = None;
            let ghost k0 = kana_buf@;
            if !roman_buf.as_str().is_empty() {
                kana_buf.append(roman_buf.as_str());
            }
            assert(kana_buf@ =~= k0 + roman_buf@);
            self.kana_state = String::new();
            if kana_buf.as_str().is_empty() {
                assert(kana_buf@ =~= Seq::<char>::empty());
                self.phase = SkkPhase::Midashi { kana_buf, roman_buf: String::new() };
                return self.preedit_only();
            }
            push_char(&mut kana_buf, '>');
            let ghost mid = *self;
            let ghost k = kana_buf@;
            let r = self.start_conversion(kana_buf, None);
            assert(frames_view(self.register_stack@).take(fs.len() as int) =~= fs);
            proof {
                let found = choose|found: Seq<Option<crate::dict::entry::EntryView>>| #[trigger] conversion_from(mid, *self, k, okuri_key_of(None), okuri_kana_of(None), actions_view(r@), found);
                assert(conversion_from(o, *self, k, None, None, actions_view(r@), found));
            }
            return r;
        }
        // An uppercase letter starts the okurigana.
        if is_ascii_uppercase(ch) && !kana_buf.as_str().is_empty() {
            self.completion = None;
            let lower = to_ascii_lowercase(ch);
            if !self.kana_state.as_str().is_empty() {
                let state_before = self.kana_state.clone();
                if let TransitionResult::Advance { output, next_state } = self.kana_table.transition(
                    state_before.as_str(),
                    lower,
                    KanaMode::Hiragana,
                ) {
                    if !output.as_str().is_empty() && !next_state.as_str().is_empty() {
                        kana_buf.append(output.as_str());
                        self.kana_state = next_state;
                        let ks = chars_of(self.kana_state.as_str());
                        let okuri_prefix = if ks.len() > 0 { ks[0] } else { lower };
                        self.phase = SkkPhase::Okuri { midashi: kana_buf, okuri_prefix, kana_buf: String::new() };
                        return self.preedit_only();
                    }
                }
            }
            let ks = chars_of(self.kana_state.as_str());
            let okuri_prefix = if ks.len() > 0 { ks[0] } else { lower };
            let midashi = kana_buf.clone();
            self.phase = SkkPhase::Okuri { midashi: kana_buf, okuri_prefix, kana_buf: String::new() };
            let r = self.handle_okuri(event, midashi, okuri_prefix, String::new());
            return r;
        }
        self.midashi_feed(event, ch, kana_buf, roman_buf, retry_ok)
    }

    /// Kana input in ▽ mode.
    #[verifier::rlimit(50)]
    fn midashi_feed(&mut self, event: &KeyEvent, ch: char, kana_buf: String, roman_buf: String, retry_ok: bool) -> (r: Vec<EngineAction>)
        requires
            old(self).inv(),
            old(self).phase@ == (PhaseView::Midashi { kana_buf: kana_buf@, roman_buf: roman_buf@ }),
            !retry_ok ==> old(self).kana_state@.len() == 0,
        ensures
            final(self).inv(),
            keeps_config(*old(self), *final(self)),
            final(self).midashi_display_mode == old(self).midashi_display_mode,
            stack_grows_by_one(*old(self), *final(self)),
            acts_wf(actions_view(r@)),
            midashi_feed_spec(*old(self), *final(self), *event, ch, kana_buf@, actions_view(r@)),
        decreases (if retry_ok { 1int } else { 0int }), 0int,
    {
        let mut kana_buf = kana_buf;
        let mut roman_buf = roman_buf;
        let ghost fs = frames_view(self.register_stack@);
        assert(fs.take(fs.len() as int) =~= fs);
        // Lowercase character: feed into the kana state machine.
        let lower = if is_ascii_uppercase(ch) { to_ascii_lowercase(ch) } else { ch };
        let state_before = self.kana_state.clone();
        let result = self.kana_table.transition(state_before.as_str(), lower, KanaMode::Hiragana);
        proof {
            if !retry_ok {
                assert(state_before@ =~= Seq::<char>::empty());
                lemma_start_state_no_retry(self.kana_table, lower, KanaMode::Hiragana);
            }
        }
        match result {
            TransitionResult::Advance { output, next_state } => {
                roman_buf = next_state.clone();
                if !output.as_str().is_empty() {
                    kana_buf.append(output.as_str());
                    self.kana_state = next_state.clone();
                    if next_state.as_str().is_empty() {
                        let kc = chars_of(kana_buf.as_str());
                        if kc.len() > 0 {
                            let last_ch = kc[kc.len() - 1];
                            if !is_ascii(last_ch) && self.keybindings.conversion_trigger_chars.len() > 0
                                && contains_char(self.keybindings.conversion_trigger_chars.as_slice(), last_ch) {
                                pop_char(&mut kana_buf);
                                self.completion = None;
                                self.kana_state = String::new();
                                if kana_buf.as_str().is_empty() {
                                    self.phase = self.kana_phase_from_display_mode();
                                    return acts2(EngineAction::Commit(char_to_string(last_ch)), EngineAction::ClearPreedit);
                                }
                                self.conversion_trigger = Some(char_to_string(last_ch));
                                let r = self.start_conversion(kana_buf, None);
                                assert(frames_view(self.register_stack@).take(fs.len() as int) =~= fs);
                                return r;
                            }
                        }
                        self.update_completion(kana_buf.as_str());
                    } else {
                        self.completion = None;
                    }
                } else {
                    self.completion = None;
                    self.kana_state = next_state;
                }
                self.phase = SkkPhase::Midashi { kana_buf, roman_buf };
                self.preedit_only()
            },
            TransitionResult::OkRetry { output, retry } => {
                if !output.as_str().is_empty() {
                    kana_buf.append(output.as_str());
                }
                self.kana_state = String::new();
                let k2 = kana_buf.clone();
                self.phase = SkkPhase::Midashi { kana_buf, roman_buf: String::new() };
                assert(retry_ok);
                let fake = KeyEvent::press(Key::Char(retry), Modifiers::empty());
                let r = self.handle_midashi(&fake, k2, String::new(), false);
                return r;
            },
            TransitionResult::NoMatch { flush: _, retry } => {
                self.kana_state = String::new();
                let k2 = kana_buf.clone();
                self.phase = SkkPhase::Midashi { kana_buf, roman_buf: String::new() };
                match retry {
                    Some(retry_ch) => {
                        assert(retry_ok);
                        let fake = KeyEvent::press(Key::Char(retry_ch), Modifiers::empty());
                        self.handle_midashi(&fake, k2, String::new(), false)
                    },
                    None => {
                        if ch == 'q' && !ctrl_held(event) && !k2.as_str().is_empty() {
                            let committed = match self.midashi_display_mode {
                                KanaMode::Hiragana => crate::kana::table::hiragana_to_katakana(k2.as_str()),
                                _ => k2.clone(),
                            };
                            self.completion = None;
                            self.phase = self.kana_phase_from_display_mode();
                            self.kana_state = String::new();
                            return acts2(EngineAction::Commit(committed), EngineAction::ClearPreedit);
                        }
                        self.preedit_only()
                    },
                }
            },
        }
    }
}

/// What a lowercase character typed in ▽ mode does, by the step the kana
/// table takes from the pending romaji: an advance extends the reading
/// (unless it completes a kana that is a conversion trigger), and an
/// unmatched `q` commits the reading in katakana.
pub(crate) open spec fn midashi_feed_spec(o: SkkEngine, f: SkkEngine, e: KeyEvent, ch: char, kana_buf: Seq<char>, r: Seq<ActionView>) -> bool {
    let triggers = o.keybindings.conversion_trigger_chars@;
    !spec_is_ascii_uppercase(ch) ==> match o.kana_table.spec_step(o.kana_state@, ch, KanaMode::Hiragana) {
        TransitionOutcome::Advance { output, next_state } => {
            let k = kana_buf + output;
            if output.len() > 0 && next_state.len() == 0 && !spec_is_ascii(k.last()) && triggers.contains(k.last()) {
                true
            } else {
                &&& f.phase@ == (PhaseView::Midashi { kana_buf: k, roman_buf: next_state })
                &&& f.kana_state@ == next_state
                &&& r == seq![pre_of(f)]
            }
        },
        TransitionOutcome::NoMatch { flush, retry } => (retry is None && ch == 'q' && !has_ctrl(e.modifiers) && kana_buf.len() > 0)
            ==> {
            &&& f.phase@ == phase_of_mode(o.midashi_display_mode)
            &&& r == seq![
                ActionView::Commit(if o.midashi_display_mode is Hiragana { crate::kana::table::kata_seq(kana_buf) } else { kana_buf }),
                ActionView::ClearPreedit,
            ]
        },
        TransitionOutcome::OkRetry { output, retry } => true,
    }
}

/// What Space does in ▽ mode: it converts the reading, or leaves ▽ mode
/// when the reading is empty.
pub(crate) open spec fn midashi_space_spec(o: SkkEngine, f: SkkEngine, kana_buf: Seq<char>, roman_buf: Seq<char>, r: Seq<ActionView>) -> bool {
    let k = reading_with_n(kana_buf, roman_buf);
    if k.len() == 0 {
        f.phase@ == PhaseView::Hiragana && r == seq![ActionView::ClearPreedit]
    } else {
        exists|found: Seq<Option<crate::dict::entry::EntryView>>| #[trigger] conversion_from(o, f, k, None, None, r, found)
    }
}

/// Whether a key in ▽ mode is a printable character that none of the
/// editing keys (Escape, BackSpace, Return, Space, Tab, C-q) catches.
pub open spec fn midashi_char_key(e: KeyEvent) -> bool {
    &&& e.key != Key::Escape && e.key != Key::BackSpace && e.key != Key::Return
    &&& e.key != Key::Space && e.key != Key::Tab && !is_ctrl_char(e, 'q')
    &&& spec_printable_char(e.key) is Some
}

/// The reading of ▽ mode once a pending `n` is taken as `ん`.
pub open spec fn reading_with_n(kana_buf: Seq<char>, roman_buf: Seq<char>) -> Seq<char> {
    if roman_buf == seq!['n'] {
        kana_buf.push('ん')
    } else {
        kana_buf
    }
}

/// The text a conversion trigger character commits: the kana the table
/// gives it from the start state, or the character itself.
pub open spec fn trigger_text(step: TransitionOutcome, ch: char) -> Seq<char> {
    match step {
        TransitionOutcome::Advance { output, next_state } => if output.len() > 0 && next_state.len() == 0 {
            output
        } else {
            seq![ch]
        },
        _ => seq![ch],
    }
}

/// What a printable character typed in ▽ mode does: a conversion trigger
/// converts the reading (or commits itself when the reading is empty), a
/// suffix mark `>` `<` `?` converts the reading followed by `>`, an
/// uppercase letter starts the okurigana, anything else goes to the kana
/// table.
pub(crate) open spec fn midashi_char_spec(
    o: SkkEngine,
    f: SkkEngine,
    e: KeyEvent,
    ch: char,
    kana_buf: Seq<char>,
    roman_buf: Seq<char>,
    r: Seq<ActionView>,
) -> bool {
    let triggers = o.keybindings.conversion_trigger_chars@;
    if spec_is_ascii(ch) && o.kana_state@.len() == 0 && triggers.contains(ch) {
        let k = reading_with_n(kana_buf, roman_buf);
        let t = trigger_text(o.kana_table.spec_step(Seq::empty(), ch, KanaMode::Hiragana), ch);
        if k.len() == 0 {
            f.phase@ == phase_of_mode(o.midashi_display_mode) && r == seq![ActionView::Commit(t), ActionView::ClearPreedit]
        } else {
            opt_view(f.conversion_trigger) == Some(t) && exists|found: Seq<Option<crate::dict::entry::EntryView>>|
                #[trigger] conversion_from(o, f, k, None, None, r, found)
        }
    } else if ch == '>' || ch == '<' || ch == '?' {
        let k = kana_buf + roman_buf;
        if k.len() == 0 {
            f.phase@ == (PhaseView::Midashi { kana_buf: Seq::empty(), roman_buf: Seq::empty() }) && r == seq![pre_of(f)]
        } else {
            exists|found: Seq<Option<crate::dict::entry::EntryView>>| #[trigger] conversion_from(o, f, k.push('>'), None, None, r, found)
        }
    } else if spec_is_ascii_uppercase(ch) && kana_buf.len() > 0 {
        true
    } else {
        midashi_feed_spec(o, f, e, ch, kana_buf, r)
    }
}

/// Whether a key in a kana phase goes to the kana state machine: a
/// printable key without Control that is no mode switch in the start state.
pub(crate) open spec fn kana_feeds(o: SkkEngine, e: KeyEvent) -> bool {
    let ch = spec_printable_char(e.key).unwrap();
    let kb = o.keybindings;
    &&& spec_printable_char(e.key) is Some
    &&& e.key != Key::Escape && e.key != Key::BackSpace
    &&& !has_ctrl(e.modifiers)
    &&& !(o.kana_state@.len() == 0 && (kb.ascii_mode@.contains(ch) || kb.wide_ascii_mode@.contains(ch)
        || kb.abbrev_mode@.contains(ch) || kb.katakana_mode@.contains(ch) || spec_is_ascii_uppercase(ch)
        || ch == '\\'))
}

/// Whether the key is printable and one of `keys`.
pub open spec fn key_in(e: KeyEvent, keys: Seq<char>) -> bool {
    spec_printable_char(e.key) matches Some(c) && keys.contains(c)
}

/// The candidate index after the cancel key in Selecting phase.
pub open spec fn prev_index(index: int, inline_count: int, sel_len: int) -> int {
    if sel_len > 0 && index >= inline_count {
        let raw = if index >= sel_len { index - sel_len } else { 0 };
        if raw < inline_count {
            if inline_count >= 1 { inline_count - 1 } else { 0 }
        } else {
            raw
        }
    } else {
        index - 1
    }
}

/// The candidate index after Space in Selecting phase, `None` past the end.
pub open spec fn next_index(index: int, len: int, inline_count: int, sel_len: int) -> Option<int> {
    let step = if sel_len > 0 && index >= inline_count { sel_len } else { 1 };
    if index + step >= len {
        None
    } else {
        Some(index + step)
    }
}

/// Whether `k` is the first position of `c` in `s`.
pub open spec fn first_pos(s: Seq<char>, c: char, k: int) -> bool {
    0 <= k < s.len() && s[k] == c && forall|j: int| 0 <= j < k ==> s[j] != c
}

/// The actions of committing candidate `c`: hide the list, commit the word
/// with its okurigana, clear the preedit, then commit a pending trigger.
pub open spec fn commit_seq(c: CandidateView, okuri: Option<Seq<char>>, trigger: Option<String>) -> Seq<ActionView> {
    seq![ActionView::HideCandidates, ActionView::Commit(commit_text(c, okuri)), ActionView::ClearPreedit]
        + match trigger {
        Some(t) => seq![ActionView::Commit(t@)],
        None => Seq::empty(),
    }
}

/// Whether a key in Selecting phase gets past Escape, the cancel key,
/// Return, BackSpace, C-j and Space, and is printable.
pub open spec fn selecting_other_key(e: KeyEvent, cancel: Seq<char>) -> bool {
    &&& e.key != Key::Escape && !key_in(e, cancel)
    &&& e.key != Key::Return && e.key != Key::BackSpace
    &&& !is_ctrl_char(e, 'j') && e.key != Key::Space
    &&& spec_printable_char(e.key) is Some
}

impl SkkEngine {
    // ── Hiragana / Katakana mode ──────────────────────────────────────────

    #[verifier::rlimit(50)]
    pub(crate) fn handle_kana(&mut self, event: &KeyEvent) -> (r: Vec<EngineAction>)
        requires
            old(self).inv(),
            old(self).phase@ is Hiragana || old(self).phase@ is Katakana || old(self).phase@ is HalfWidthKatakana,
        ensures
            final(self).inv(),
            keeps_config(*old(self), *final(self)),
            stack_grows_by_one(*old(self), *final(self)),
            acts_wf(actions_view(r@)),
            is_ctrl_char(*event, 'j') ==> final(self).phase@ == PhaseView::Hiragana && final(self).kana_state@.len() == 0
                && actions_view(r@) == seq![ActionView::ClearPreedit],
            is_ctrl_char(*event, 'q') ==> final(self).phase@ == (if old(self).phase@ is HalfWidthKatakana {
                PhaseView::Hiragana
            } else {
                PhaseView::HalfWidthKatakana
            }) && final(self).kana_state@.len() == 0 && actions_view(r@) == seq![ActionView::ClearPreedit],
            event.key == Key::Escape ==> final(self).phase == old(self).phase && final(self).kana_state@.len() == 0
                && actions_view(r@) == seq![ActionView::ClearPreedit, ActionView::Passthrough],
            event.key == Key::BackSpace ==> final(self).phase == old(self).phase && (if old(self).kana_state@.len() > 0 {
                final(self).kana_state@ == old(self).kana_state@.drop_last() && actions_view(r@) == seq![pre_of(*final(self))]
            } else {
                actions_view(r@) == seq![ActionView::Passthrough]
            }),
            ({
                let ch = spec_printable_char(event.key).unwrap();
                let kb = old(self).keybindings;
                spec_printable_char(event.key) is Some && event.key != Key::Escape && event.key != Key::BackSpace && !has_ctrl(event.modifiers)
                    && old(self).kana_state@.len() == 0 ==> {
                    &&& kb.ascii_mode@.contains(ch) ==> final(self).phase@ == PhaseView::Ascii
                        && actions_view(r@) == seq![ActionView::ClearPreedit]
                    &&& !kb.ascii_mode@.contains(ch) && kb.wide_ascii_mode@.contains(ch) ==> final(self).phase@ == PhaseView::WideAscii
                        && actions_view(r@) == seq![ActionView::ClearPreedit]
                    &&& !kb.ascii_mode@.contains(ch) && !kb.wide_ascii_mode@.contains(ch) && kb.abbrev_mode@.contains(ch)
                        ==> final(self).phase@ == (PhaseView::Abbrev { buf: Seq::empty() }) && final(self).midashi_is_abbrev
                        && final(self).midashi_display_mode == mode_of_phase(old(self).phase@)
                        && actions_view(r@) == seq![pre_of(*final(self))]
                    &&& !kb.ascii_mode@.contains(ch) && !kb.wide_ascii_mode@.contains(ch) && !kb.abbrev_mode@.contains(ch)
                        && kb.katakana_mode@.contains(ch) ==> final(self).phase@ == (if old(self).phase@ is Hiragana {
                        PhaseView::Katakana
                    } else {
                        PhaseView::Hiragana
                    }) && actions_view(r@) == seq![ActionView::ClearPreedit]
                }
            }),
            has_ctrl(event.modifiers) && spec_printable_char(event.key) is Some && !is_ctrl_char(*event, 'j')
                && !is_ctrl_char(*event, 'q') ==> final(self).phase == old(self).phase && final(self).kana_state@.len() == 0
                && actions_view(r@) == seq![ActionView::Passthrough],
            kana_feeds(*old(self), *event) ==> {
                &&& final(self).phase == old(self).phase
                &&& final(self).kana_state@ == feed_spec(*old(self), old(self).kana_state@, spec_printable_char(event.key).unwrap(), mode_of_phase(old(self).phase@), 1).0
                &&& actions_view(r@) == feed_spec(*old(self), old(self).kana_state@, spec_printable_char(event.key).unwrap(), mode_of_phase(old(self).phase@), 1).1
            },
    {
        let mode = match &self.phase {
            SkkPhase::Katakana => KanaMode::Katakana,
            SkkPhase::HalfWidthKatakana => KanaMode::HalfWidth,
            _ => KanaMode::Hiragana,
        };
        proof {
            assert(frames_view(self.register_stack@).take(self.register_stack@.len() as int) =~= frames_view(self.register_stack@));
        }
        if event.key == Key::Char('j') && ctrl_held(event) {
            self.phase = SkkPhase::Hiragana;
            self.kana_state = String::new();
            return acts1(EngineAction::ClearPreedit);
        }
        if event.key == Key::Char('q') && ctrl_held(event) {
            self.phase = match self.phase {
                SkkPhase::HalfWidthKatakana => SkkPhase::Hiragana,
                _ => SkkPhase::HalfWidthKatakana,
            };
            self.kana_state = String::new();
            return acts1(EngineAction::ClearPreedit);
        }
        if event.key == Key::Escape {
            self.kana_state = String::new();
            return acts2(EngineAction::ClearPreedit, EngineAction::Passthrough);
        }
        if event.key == Key::BackSpace {
            if !self.kana_state.as_str().is_empty() {
                pop_char(&mut self.kana_state);
                return self.preedit_only();
            }
            return acts1(EngineAction::Passthrough);
        }
        let ch = match event.printable_char() {
            Some(c) => c,
            None => return acts1(EngineAction::Passthrough),
        };
        if ctrl_held(event) {
            self.kana_state = String::new();
            return acts1(EngineAction::Passthrough);
        }
        if self.kana_state.as_str().is_empty() {
            if contains_char(self.keybindings.ascii_mode.as_slice(), ch) {
                self.phase = SkkPhase::Ascii;
                return acts1(EngineAction::ClearPreedit);
            }
            if contains_char(self.keybindings.wide_ascii_mode.as_slice(), ch) {
                self.phase = SkkPhase::WideAscii;
                return acts1(EngineAction::ClearPreedit);
            }
            if contains_char(self.keybindings.abbrev_mode.as_slice(), ch) {
                self.midashi_display_mode = mode;
                self.midashi_is_abbrev = true;
                self.phase = SkkPhase::Abbrev { buf: String::new() };
                return self.preedit_only();
            }
            if contains_char(self.keybindings.katakana_mode.as_slice(), ch) {
                self.phase = match self.phase {
                    SkkPhase::Katakana | SkkPhase::HalfWidthKatakana => SkkPhase::Hiragana,
                    _ => SkkPhase::Katakana,
                };
                return acts1(EngineAction::ClearPreedit);
            }
            if is_ascii_uppercase(ch) {
                self.midashi_display_mode = mode;
                self.midashi_is_abbrev = false;
                self.phase = SkkPhase::Midashi { kana_buf: String::new(), roman_buf: String::new() };
                return self.handle_midashi(event, String::new(), String::new(), true);
            }
            if ch == '\\' {
                self.midashi_display_mode = mode;
                self.phase = SkkPhase::CodeInput { prefix: CodeInputPrefix::Jis, buf: String::new() };
                return self.preedit_only();
            }
        }
        let r = self.feed_kana(ch, mode, true);
        assert(frames_view(self.register_stack@).take(self.register_stack@.len() as int) =~= frames_view(self.register_stack@));
        r
    }

    // ── Candidate selection ───────────────────────────────────────────────

    #[verifier::rlimit(50)]
    pub(crate) fn handle_selecting(
        &mut self,
        event: &KeyEvent,
        midashi: String,
        okuri: Option<String>,
        okuri_key: Option<String>,
        candidates: Vec<Candidate>,
        index: usize,
    ) -> (r: Vec<EngineAction>)
        requires
            old(self).inv(),
            old(self).phase@ == (PhaseView::Selecting {
                midashi: midashi@,
                okuri: opt_view(okuri),
                okuri_key: opt_view(okuri_key),
                candidates: cands_view(candidates@),
                index: index as nat,
            }),
        ensures
            final(self).inv(),
            keeps_config(*old(self), *final(self)),
            stack_grows_by_one(*old(self), *final(self)),
            acts_wf(actions_view(r@)),
            event.key == Key::Escape ==> final(self).phase@ == (PhaseView::Midashi { kana_buf: midashi@, roman_buf: Seq::empty() })
                && final(self).conversion_trigger is None
                && actions_view(r@) == seq![ActionView::HideCandidates, pre_of(*final(self))],
            event.key == Key::Space && !key_in(*event, old(self).keybindings.cancel@) ==> match next_index(
                index as int,
                candidates@.len() as int,
                old(self).keybindings.inline_count as int,
                old(self).keybindings.selection_keys@.len() as int,
            ) {
                Some(n) => final(self).phase@ == (PhaseView::Selecting {
                    midashi: midashi@,
                    okuri: opt_view(okuri),
                    okuri_key: opt_view(okuri_key),
                    candidates: cands_view(candidates@),
                    index: n as nat,
                }) && final(self).register_stack == old(self).register_stack && actions_view(r@) == match listing_spec(
                    cands_view(candidates@),
                    n,
                    old(self).keybindings.inline_count as int,
                    old(self).keybindings.selection_keys@,
                ) {
                    Some(a) => seq![a, pre_of(*final(self))],
                    None => seq![pre_of(*final(self))],
                },
                None => final(self).phase@ == PhaseView::Hiragana && actions_view(r@) == seq![
                    ActionView::HideCandidates,
                    pre_of(*final(self)),
                ] && frames_view(final(self).register_stack@)
                    == frames_view(old(self).register_stack@).push(FrameView {
                    midashi: midashi@,
                    okuri_key: opt_view(okuri_key),
                    okuri_kana: opt_view(okuri),
                    committed: Seq::empty(),
                    cursor: 0,
                    is_abbrev: old(self).midashi_is_abbrev,
                }),
            },
            event.key != Key::Escape && key_in(*event, old(self).keybindings.cancel@) && index > 0
                ==> final(self).phase@ == (PhaseView::Selecting {
                midashi: midashi@,
                okuri: opt_view(okuri),
                okuri_key: opt_view(okuri_key),
                candidates: cands_view(candidates@),
                index: prev_index(index as int, old(self).keybindings.inline_count as int, old(self).keybindings.selection_keys@.len() as int) as nat,
            }) && actions_view(r@) == match listing_spec(
                cands_view(candidates@),
                prev_index(index as int, old(self).keybindings.inline_count as int, old(self).keybindings.selection_keys@.len() as int),
                old(self).keybindings.inline_count as int,
                old(self).keybindings.selection_keys@,
            ) {
                Some(a) => seq![a, pre_of(*final(self))],
                None => if old(self).keybindings.selection_keys@.len() > 0 && index >= old(self).keybindings.inline_count {
                    seq![ActionView::HideCandidates, pre_of(*final(self))]
                } else {
                    seq![pre_of(*final(self))]
                },
            },
            event.key != Key::Escape && key_in(*event, old(self).keybindings.cancel@) && index == 0
                ==> final(self).phase@ == (PhaseView::Midashi { kana_buf: midashi@, roman_buf: Seq::empty() })
                && final(self).conversion_trigger is None
                && actions_view(r@) == seq![ActionView::HideCandidates, pre_of(*final(self))],
            selecting_other_key(*event, old(self).keybindings.cancel@) && old(self).keybindings.selection_keys@.len() > 0
                && index >= old(self).keybindings.inline_count ==> forall|k: int|
                #[trigger] first_pos(old(self).keybindings.selection_keys@, spec_printable_char(event.key).unwrap(), k) ==> if index + k
                < candidates@.len() {
                actions_view(r@) == commit_seq(cands_view(candidates@)[index + k], opt_view(okuri), old(self).conversion_trigger)
                    && final(self).phase@ == phase_of_mode(old(self).midashi_display_mode)
            } else {
                r@.len() == 0 && final(self).phase == old(self).phase
            },
            event.key != Key::Escape && !key_in(*event, old(self).keybindings.cancel@)
                && (event.key == Key::Return || event.key == Key::BackSpace) ==> {
                &&& final(self).phase@ == phase_of_mode(old(self).midashi_display_mode)
                &&& actions_view(r@).len() > 0 && actions_view(r@).last() == ActionView::Passthrough
                &&& actions_view(r@)[1] == ActionView::Commit(commit_text(cands_view(candidates@)[index as int], opt_view(okuri)))
            },
    {
        let ghost o = *self;
        proof {
            assert(frames_view(self.register_stack@).take(self.register_stack@.len() as int) =~= frames_view(self.register_stack@));
        }
        if event.key == Key::Escape {
            let m = midashi.clone();
            self.phase = SkkPhase::Midashi { kana_buf: midashi, roman_buf: String::new() };
            self.kana_state = String::new();
            self.conversion_trigger = None;
            self.update_completion(m.as_str());
            let p = self.preedit_action();
            return acts2(EngineAction::HideCandidates, p);
        }
        let pc = event.printable_char();
        let is_cancel = match pc {
            Some(c) => contains_char(self.keybindings.cancel.as_slice(), c),
            None => false,
        };
        if is_cancel {
            if index == 0 {
                let m = midashi.clone();
                self.phase = SkkPhase::Midashi { kana_buf: midashi, roman_buf: String::new() };
                self.kana_state = String::new();
                self.conversion_trigger = None;
                self.update_completion(m.as_str());
                let p = self.preedit_action();
                return acts2(EngineAction::HideCandidates, p);
            }
            let inline_count = self.keybindings.inline_count;
            let sel_len = self.keybindings.selection_keys.len();
            let in_listing = sel_len > 0 && index >= inline_count;
            let prev = if in_listing {
                let prev_raw = if index >= sel_len { index - sel_len } else { 0 };
                if prev_raw < inline_count {
                    if inline_count >= 1 { inline_count - 1 } else { 0 }
                } else {
                    prev_raw
                }
            } else {
                index - 1
            };
            let show = self.listing_show_action(candidates.as_slice(), prev);
            self.phase = SkkPhase::Selecting { midashi, okuri, okuri_key, candidates, index: prev };
            let p = self.preedit_action();
            return match show {
                Some(a) => {
                    proof {
                        lemma_show_wf(a@);
                    }
                    acts2(a, p)
                },
                None => if in_listing {
                    acts2(EngineAction::HideCandidates, p)
                } else {
                    acts1(p)
                },
            };
        }
        if event.key == Key::BackSpace || event.key == Key::Return {
            let mut actions = self.commit_candidate(midashi.as_str(), candidates.as_slice(), index, &okuri, &okuri_key);
            let ghost a0 = actions_view(actions@);
            push_act(&mut actions, EngineAction::Passthrough);
            proof {
                lemma_acts_wf_concat(a0, seq![ActionView::Passthrough]);
                assert(a0.push(ActionView::Passthrough) =~= a0 + seq![ActionView::Passthrough]);
            }
            return actions;
        }
        if event.key == Key::Char('j') && ctrl_held(event) {
            return self.commit_candidate(midashi.as_str(), candidates.as_slice(), index, &okuri, &okuri_key);
        }
        if event.key == Key::Space {
            let inline_count = self.keybindings.inline_count;
            let sel_len = self.keybindings.selection_keys.len();
            let in_listing = sel_len > 0 && index >= inline_count;
            let step = if in_listing { sel_len } else { 1 };
            if step >= candidates.len() - index {
                let r = self.enter_register_from_selecting(midashi, okuri, okuri_key);
                assert(frames_view(self.register_stack@).take(o.register_stack@.len() as int) =~= frames_view(o.register_stack@));
                return r;
            }
            let next = index + step;
            let show = self.listing_show_action(candidates.as_slice(), next);
            self.phase = SkkPhase::Selecting { midashi, okuri, okuri_key, candidates, index: next };
            let p = self.preedit_action();
            return match show {
                Some(a) => {
                    proof {
                        lemma_show_wf(a@);
                    }
                    acts2(a, p)
                },
                None => acts1(p),
            };
        }
        {
            let inline_count = self.keybindings.inline_count;
            let sel_len = self.keybindings.selection_keys.len();
            if sel_len > 0 && index >= inline_count {
                if let Some(ch) = pc {
                    if let Some(sel_idx) = position_char(self.keybindings.selection_keys.as_slice(), ch) {
                        proof {
                            let sel = o.keybindings.selection_keys@;
                            assert forall|k: int| #[trigger] first_pos(sel, ch, k) implies k == sel_idx by {
                                if k < sel_idx {
                                    assert(sel[k] == ch);
                                } else if k > sel_idx {
                                    assert(sel[sel_idx as int] == ch);
                                }
                            }
                        }
                        if sel_idx < candidates.len() - index {
                            return self.commit_candidate(midashi.as_str(), candidates.as_slice(), index + sel_idx, &okuri, &okuri_key);
                        }
                        return Vec::new();
                    }
                    proof {
                        let sel = o.keybindings.selection_keys@;
                        assert forall|k: int| !#[trigger] first_pos(sel, ch, k) by {
                            if 0 <= k < sel.len() && sel[k] == ch {
                                assert(sel.contains(ch));
                            }
                        }
                    }
                }
            }
        }
        let is_suffix = match pc {
            Some(c) => c == '>' || c == '<' || c == '?',
            None => false,
        };
        if is_suffix {
            let mut actions = self.commit_candidate(midashi.as_str(), candidates.as_slice(), index, &okuri, &okuri_key);
            self.phase = SkkPhase::Midashi { kana_buf: char_to_string('>'), roman_buf: String::new() };
            self.kana_state = String::new();
            let p = self.preedit_action();
            let ghost a0 = actions_view(actions@);
            push_act(&mut actions, p);
            proof {
                lemma_acts_wf_concat(a0, seq![p@]);
                assert(a0.push(p@) =~= a0 + seq![p@]);
            }
            return actions;
        }
        if pc.is_some() && !ctrl_held(event) {
            let mut actions = self.commit_candidate(midashi.as_str(), candidates.as_slice(), index, &okuri, &okuri_key);
            let ghost a0 = actions_view(actions@);
            let ghost mid = *self;
            let more = self.handle_kana(event);
            proof {
                lemma_acts_wf_concat(a0, actions_view(more@));
                assert(frames_view(mid.register_stack@) == frames_view(o.register_stack@));
            }
            append_acts(&mut actions, more);
            return actions;
        }
        acts1(EngineAction::Passthrough)
    }
}

} // verus!
