//! The preedit shown for each state of the engine.

use vstd::prelude::*;
use vstd::string::StringExecFns;

use crate::dict::entry::CandidateView;
use crate::engine::register::{lemma_frame_wf_at, frame_pos};
use crate::engine::{
    frame_wf, phase_wf, CodeInputPrefix, EngineAction, FrameView, PhaseView, Preedit, SkkEngine,
    SkkPhase,
};
use crate::kana::parser::subrange_vec;
use crate::kana::table::{halfwidth_seq, hiragana_to_halfwidth, hiragana_to_katakana, kata_seq, KanaMode};
use crate::text::{byte_len, chars_of, is_prefix, lemma_byte_len_concat, push_char, str_byte_len, string_from_chars};

verus! {

/// Label of the registration prompt.
pub const REGISTER_LABEL: &'static str = "辞書登録";

/// How a hiragana midashi is shown in a display mode.
pub open spec fn display_seq(s: Seq<char>, m: KanaMode) -> Seq<char> {
    match m {
        KanaMode::Katakana => kata_seq(s),
        KanaMode::HalfWidth => halfwidth_seq(s),
        KanaMode::Hiragana => s,
    }
}

pub open spec fn opt_or_empty(o: Option<Seq<char>>) -> Seq<char> {
    match o {
        Some(s) => s,
        None => Seq::empty(),
    }
}

/// The text of a selected candidate in the preedit.
pub open spec fn selecting_text(c: CandidateView, okuri: Option<Seq<char>>, trigger: Option<Seq<char>>) -> Seq<char> {
    seq!['▼'] + c.word + opt_or_empty(okuri) + opt_or_empty(trigger) + match c.annotation {
        Some(a) => seq![';'] + a,
        None => Seq::empty(),
    }
}

/// The preedit text of the current phase, without any registration prompt.
pub open spec fn inner_text(
    p: PhaseView,
    kana_state: Seq<char>,
    mode: KanaMode,
    trigger: Option<Seq<char>>,
) -> Seq<char> {
    match p {
        PhaseView::Hiragana | PhaseView::Katakana | PhaseView::HalfWidthKatakana => kana_state,
        PhaseView::WideAscii | PhaseView::Ascii => Seq::empty(),
        PhaseView::Abbrev { buf } => seq!['▽'] + buf,
        PhaseView::CodeInput { prefix, buf } => (match prefix {
            CodeInputPrefix::Jis => seq!['\\'],
            CodeInputPrefix::Unicode => seq!['\\', 'u'],
        }) + buf,
        PhaseView::Midashi { kana_buf, roman_buf } => seq!['▽'] + display_seq(kana_buf, mode) + roman_buf,
        PhaseView::Okuri { midashi, kana_buf, .. } => seq!['▽'] + midashi + seq!['*'] + kana_buf + kana_state,
        PhaseView::Selecting { okuri, candidates, index, .. } => selecting_text(candidates[index as int], okuri, trigger),
    }
}

/// `c` repeated `n` times.
pub open spec fn repeat_seq(c: char, n: nat) -> Seq<char>
    decreases n,
{
    if n == 0 {
        Seq::empty()
    } else {
        repeat_seq(c, (n - 1) as nat).push(c)
    }
}

/// The registration prompt for the innermost frame at nesting depth `depth`.
pub open spec fn register_prompt(f: FrameView, depth: nat) -> Seq<char> {
    repeat_seq('[', depth) + REGISTER_LABEL@ + repeat_seq(']', depth) + seq![' '] + f.midashi + opt_or_empty(
        f.okuri_kana,
    ) + seq![':', ' ']
}

/// A preedit of `inner` with the cursor `at` bytes into it, placed inside
/// the registration prompt when a frame is open.
pub open spec fn wrap_preedit(stack: Seq<FrameView>, inner: Seq<char>, at: nat) -> (Seq<char>, nat) {
    if stack.len() == 0 {
        (inner, at)
    } else {
        let f = stack.last();
        let k = frame_pos(f);
        let prompt = register_prompt(f, stack.len());
        let before = f.committed.take(k);
        let after = f.committed.skip(k);
        (prompt + before + inner + after, byte_len(prompt) + byte_len(before) + at)
    }
}

/// Completion ghost: `(cycle prefix, next index, preview)`.
pub type CompletionView = (Seq<char>, nat, Seq<char>);

/// The preedit of an engine state: text and cursor byte offset.
pub open spec fn spec_preedit(
    p: PhaseView,
    kana_state: Seq<char>,
    mode: KanaMode,
    completion: Option<CompletionView>,
    trigger: Option<Seq<char>>,
    stack: Seq<FrameView>,
) -> (Seq<char>, nat) {
    let inner = inner_text(p, kana_state, mode, trigger);
    let plain = wrap_preedit(stack, inner, byte_len(inner));
    match p {
        PhaseView::Midashi { kana_buf, roman_buf } => if roman_buf.len() == 0 && completion is Some
            && is_prefix(kana_buf, completion.unwrap().2) {
            let head = seq!['▽'] + display_seq(kana_buf, mode);
            let ghost_text = head + completion.unwrap().2.skip(kana_buf.len() as int);
            wrap_preedit(stack, ghost_text, byte_len(head))
        } else {
            plain
        },
        _ => plain,
    }
}

/// The cursor of a preedit lies on a character boundary of its text.
pub open spec fn preedit_wf(pe: (Seq<char>, nat)) -> bool {
    exists|k: int| 0 <= k <= pe.0.len() && byte_len(#[trigger] pe.0.take(k)) == pe.1
}

pub proof fn lemma_repeat_seq_len(c: char, n: nat)
    ensures
        repeat_seq(c, n).len() == n,
    decreases n,
{
    if n > 0 {
        lemma_repeat_seq_len(c, (n - 1) as nat);
    }
}

/// Appends `c` `n` times.
fn push_repeat(s: &mut String, c: char, n: usize)
    ensures
        final(s)@ == old(s)@ + repeat_seq(c, n as nat),
{
    let mut i: usize = 0;
    while i < n
        invariant
            i <= n,
            s@ == old(s)@ + repeat_seq(c, i as nat),
        decreases n - i,
    {
        push_char(s, c);
        assert(s@ =~= old(s)@ + repeat_seq(c, (i + 1) as nat));
        i += 1;
    }
}

/// Places `inner` (cursor `at` bytes into it) inside the registration prompt.
fn wrap_exec(stack: &Vec<crate::engine::RegisterFrame>, inner: String, at: usize) -> (r: Preedit)
    requires
        forall|i: int| 0 <= i < stack@.len() ==> frame_wf(#[trigger] stack@[i]@),
        at <= byte_len(inner@),
        exists|k: int| 0 <= k <= inner@.len() && byte_len(#[trigger] inner@.take(k)) == at,
    ensures
        (r.text@, r.cursor as nat) == wrap_preedit(crate::engine::frames_view(stack@), inner@, at as nat),
        preedit_wf((r.text@, r.cursor as nat)),
{
    let ghost fv = crate::engine::frames_view(stack@);
    if stack.len() == 0 {
        assert(fv.len() == 0);
        proof {
            let j = choose|j: int| 0 <= j <= inner@.len() && byte_len(#[trigger] inner@.take(j)) == at;
            let pe = (inner@, at as nat);
            assert(byte_len(pe.0.take(j)) == pe.1);
        }
        return Preedit { text: inner, cursor: at };
    }
    let f = &stack[stack.len() - 1];
    assert(fv.last() == f@);
    assert(frame_wf(f@));
    let (cs, k) = crate::engine::register::cursor_pos(f);
    let depth = stack.len();
    let mut prompt = String::new();
    push_repeat(&mut prompt, '[', depth);
    prompt.append(REGISTER_LABEL);
    push_repeat(&mut prompt, ']', depth);
    push_char(&mut prompt, ' ');
    prompt.append(f.midashi.as_str());
    match &f.okuri_kana {
        Some(o) => prompt.append(o.as_str()),
        None => {},
    }
    push_char(&mut prompt, ':');
    push_char(&mut prompt, ' ');
    assert(prompt@ =~= register_prompt(f@, fv.len()));
    let bv = subrange_vec(&cs, 0, k);
    let before = string_from_chars(bv.as_slice());
    let mut text = prompt.clone();
    text.append(before.as_str());
    text.append(inner.as_str());
    let av = subrange_vec(&cs, k, cs.len());
    let after = string_from_chars(av.as_slice());
    text.append(after.as_str());
    let pb = str_byte_len(prompt.as_str());
    let bb = str_byte_len(before.as_str());
    let total = str_byte_len(text.as_str());
    proof {
        assert(before@ =~= cs@.take(k as int));
        assert(after@ =~= cs@.skip(k as int));
        let full = prompt@ + before@ + inner@ + after@;
        assert(text@ =~= full);
        let j = choose|j: int| 0 <= j <= inner@.len() && byte_len(#[trigger] inner@.take(j)) == at;
        let pre = prompt@ + before@;
        assert(full.take(pre.len() + j) =~= pre + inner@.take(j));
        lemma_byte_len_concat(prompt@, before@);
        lemma_byte_len_concat(pre, inner@.take(j));
        lemma_byte_len_concat(prompt@ + before@, inner@);
        lemma_byte_len_concat(prompt@ + before@ + inner@, after@);
        assert(pb + bb + at <= total);
        let pe = (text@, (pb + bb + at) as nat);
        assert(byte_len(pe.0.take(pre.len() + j)) == pe.1);
    }
    Preedit { text, cursor: pb + bb + at }
}

pub(crate) open spec fn completion_view(c: Option<crate::engine::CompletionState>) -> Option<CompletionView> {
    match c {
        Some(st) => Some((st.cycle_prefix@, st.next_index as nat, st.preview@)),
        None => None,
    }
}

impl SkkEngine {
    /// The preedit of the current state.
    pub(crate) open spec fn preedit_view(&self) -> (Seq<char>, nat) {
        spec_preedit(
            self.phase@,
            self.kana_state@,
            self.midashi_display_mode,
            completion_view(self.completion),
            crate::engine::opt_view(self.conversion_trigger),
            crate::engine::frames_view(self.register_stack@),
        )
    }

    /// The midashi in the script of the display mode.
    fn display_midashi(&self, kana_buf: &str) -> (r: String)
        ensures
            r@ == display_seq(kana_buf@, self.midashi_display_mode),
    {
        match self.midashi_display_mode {
            KanaMode::Katakana => hiragana_to_katakana(kana_buf),
            KanaMode::HalfWidth => hiragana_to_halfwidth(kana_buf),
            KanaMode::Hiragana => kana_buf.to_owned(),
        }
    }

    /// Returns the preedit text for the current phase, without any register prefix.
    fn build_inner_preedit(&self) -> (r: String)
        requires
            phase_wf(self.phase@),
        ensures
            r@ == inner_text(
                self.phase@,
                self.kana_state@,
                self.midashi_display_mode,
                crate::engine::opt_view(self.conversion_trigger),
            ),
    {
        match &self.phase {
            SkkPhase::Hiragana | SkkPhase::Katakana | SkkPhase::HalfWidthKatakana => self.kana_state.clone(),
            SkkPhase::WideAscii | SkkPhase::Ascii => String::new(),
            SkkPhase::Abbrev { buf } => {
                let mut r = String::new();
                push_char(&mut r, '▽');
                r.append(buf.as_str());
                r
            },
            SkkPhase::CodeInput { prefix, buf } => {
                let mut r = String::new();
                push_char(&mut r, '\\');
                match prefix {
                    CodeInputPrefix::Jis => {},
                    CodeInputPrefix::Unicode => push_char(&mut r, 'u'),
                }
                r.append(buf.as_str());
                r
            },
            SkkPhase::Midashi { kana_buf, roman_buf } => {
                let mut r = String::new();
                push_char(&mut r, '▽');
                let d = self.display_midashi(kana_buf.as_str());
                r.append(d.as_str());
                r.append(roman_buf.as_str());
                r
            },
            SkkPhase::Okuri { midashi, kana_buf, .. } => {
                let mut r = String::new();
                push_char(&mut r, '▽');
                r.append(midashi.as_str());
                push_char(&mut r, '*');
                r.append(kana_buf.as_str());
                r.append(self.kana_state.as_str());
                r
            },
            SkkPhase::Selecting { okuri, candidates, index, .. } => {
                let cand = &candidates[*index];
                let mut r = String::new();
                push_char(&mut r, '▼');
                r.append(cand.word.as_str());
                match okuri {
                    Some(o) => r.append(o.as_str()),
                    None => {},
                }
                match &self.conversion_trigger {
                    Some(t) => r.append(t.as_str()),
                    None => {},
                }
                match &cand.annotation {
                    Some(a) => {
                        push_char(&mut r, ';');
                        r.append(a.as_str());
                    },
                    None => {},
                }
                r
            },
        }
    }

    /// The preedit of the current state: the text shown and the byte
    /// offset of the cursor, which sits on a character boundary.
    pub fn build_preedit(&self) -> (r: Preedit)
        requires
            self.wf(),
        ensures
            (r.text@, r.cursor as nat) == self.spec_preedit(),
            preedit_wf((r.text@, r.cursor as nat)),
    {
        if let SkkPhase::Midashi { kana_buf, roman_buf } = &self.phase {
            if roman_buf.as_str().is_empty() {
                if let Some(state) = &self.completion {
                    let kb = chars_of(kana_buf.as_str());
                    let pv = chars_of(state.preview.as_str());
                    if crate::text::starts_with_chars(pv.as_slice(), kb.as_slice()) {
                        let mut head = String::new();
                        push_char(&mut head, '▽');
                        let d = self.display_midashi(kana_buf.as_str());
                        head.append(d.as_str());
                        let at = str_byte_len(head.as_str());
                        let gv = subrange_vec(&pv, kb.len(), pv.len());
                        let ghost_str = string_from_chars(gv.as_slice());
                        let mut text = head.clone();
                        text.append(ghost_str.as_str());
                        proof {
                            assert(gv@ =~= state.preview@.skip(kana_buf@.len() as int));
                            assert(text@.take(head@.len() as int) =~= head@);
                            lemma_byte_len_concat(head@, ghost_str@);
                            assert(byte_len(text@) == byte_len(head@) + byte_len(ghost_str@));
                        }
                        return wrap_exec(&self.register_stack, text, at);
                    }
                }
            }
        }
        let inner = self.build_inner_preedit();
        let at = str_byte_len(inner.as_str());
        proof {
            assert(inner@.take(inner@.len() as int) =~= inner@);
        }
        wrap_exec(&self.register_stack, inner, at)
    }

    pub(crate) fn preedit_action(&self) -> (r: EngineAction)
        requires
            self.inv(),
        ensures
            r@ == crate::engine::ActionView::UpdatePreedit(self.preedit_view().0, self.preedit_view().1),
            preedit_wf(self.preedit_view()),
    {
        EngineAction::UpdatePreedit(self.build_preedit())
    }
}

} // verus!
