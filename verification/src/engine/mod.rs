//! The SKK input state machine.
//!
//! `SkkEngine::process_key` turns key events into actions for the platform
//! adapter (commit text, update the preedit, show candidates, ...).

use vstd::prelude::*;

use crate::config::SkkKeybindings;
use crate::dict::entry::{cands_view, Candidate, CandidateView};
use crate::dict::traits::DictionaryProvider;
use crate::kana::table::{KanaMode, KanaTable};
use crate::engine::handlers::{acts1, push_act};
use crate::engine::press::press_outcome;
use crate::key::KeyEvent;
use crate::text::{byte_len, char_to_string};

pub mod code;
pub mod handlers;
pub mod preedit;
pub mod press;
pub mod register;

verus! {

// ── Public types ─────────────────────────────────────────────────────────────

/// Preedit text sent to the application's input context.
#[derive(Debug, Clone, PartialEq, Eq, Default)]
pub struct Preedit {
    /// The full preedit string shown to the user.
    pub text: String,
    /// Byte offset of the cursor inside `text`.
    pub cursor: usize,
}

/// Output actions produced by `SkkEngine::process_key`.
#[derive(Debug, Clone, PartialEq, Eq)]
pub enum EngineAction {
    /// Commit `text` to the application.
    Commit(String),
    /// Replace the preedit display.
    UpdatePreedit(Preedit),
    /// Clear the preedit display.
    ClearPreedit,
    /// Show a candidate list (page slice, focused index within page, selection key chars).
    /// Only emitted when in listing mode (index >= inline_count).
    ShowCandidates(Vec<Candidate>, usize, String),
    /// Hide the candidate list.
    HideCandidates,
    /// Notify the UI that the input mode changed.  The string is the mode indicator
    /// character shown in the status popup: "あ"/"ア"/"ｱ"/"a"/"Ａ".
    UpdateStatus(String),
    /// Key was not consumed; pass it through to the application.
    Passthrough,
}

/// Code input mode prefix character.
#[derive(Debug, Clone, Copy, PartialEq, Eq, Structural)]
pub enum CodeInputPrefix {
    /// `\` — JIS code input (4 hex digits)
    Jis,
    /// `\u` — Unicode code point (1–6 hex digits)
    Unicode,
}

/// The current phase of the SKK state machine.
#[derive(Debug, Clone, PartialEq, Eq)]
pub enum SkkPhase {
    /// Hiragana input mode (default)
    Hiragana,
    /// Katakana input mode
    Katakana,
    /// Half-width katakana input mode
    HalfWidthKatakana,
    /// Wide-ASCII (全角英数) mode
    WideAscii,
    /// ASCII (半角英数, IME pass-through) mode
    Ascii,
    /// Code input mode (`\` or `\u`)
    CodeInput { prefix: CodeInputPrefix, buf: String },
    /// Abbrev mode: ASCII characters typed directly as the dictionary key (▽ascii).
    Abbrev { buf: String },
    /// Midashi (headword) being typed; `kana_buf` accumulates kana
    Midashi { kana_buf: String, roman_buf: String },
    /// Okurigana being typed
    Okuri {
        midashi: String,
        okuri_prefix: char,
        /// Kana already produced mid-okurigana (e.g. "っ" before the final consonant).
        kana_buf: String,
    },
    /// Candidate selection
    Selecting {
        midashi: String,
        /// Okurigana kana text appended to the committed word (e.g. "いて").
        okuri: Option<String>,
        /// Okurigana consonant key used for dictionary lookup (e.g. "k").
        okuri_key: Option<String>,
        candidates: Vec<Candidate>,
        index: usize,
    },
}

/// One level of the (possibly recursive) dictionary registration mode.
#[derive(Debug, Clone)]
pub struct RegisterFrame {
    /// Reading used as the dict lookup key (e.g. "へんかんちゅう").
    pub midashi: String,
    /// Okurigana consonant key stored in the dict entry (e.g. "k" for うごく).
    pub okuri_key: Option<String>,
    /// Okurigana kana appended to the commit string (e.g. "く").
    pub okuri_kana: Option<String>,
    /// Text accumulated so far for this registration level.
    pub committed: String,
    /// Byte offset of the editing cursor within `committed`.
    pub cursor: usize,
    /// True when this frame was entered via abbrev mode (ASCII midashi).
    pub is_abbrev: bool,
}

/// Tab-completion state, active only while in `SkkPhase::Midashi`.
#[derive(Debug)]
pub(crate) struct CompletionState {
    /// Original prefix that started this cycling session; stays fixed across Tabs.
    pub(crate) cycle_prefix: String,
    /// Index of the *next* completion to offer after the current preview is accepted.
    pub(crate) next_index: usize,
    /// Full headword currently shown as ghost text in the preedit.
    pub(crate) preview: String,
}

pub struct SkkEngine {
    pub(crate) phase: SkkPhase,
    pub(crate) kana_state: String,
    pub(crate) kana_table: KanaTable,
    pub(crate) keybindings: SkkKeybindings,
    /// Attached dictionaries in non-increasing priority order.
    pub(crate) dict: Vec<Box<dyn DictionaryProvider>>,
    /// The priority each dictionary reported when it was added, in the
    /// order of `dict`.
    pub(crate) dict_priority: Vec<i32>,
    /// Non-empty while in dictionary registration mode (supports recursive nesting).
    pub(crate) register_stack: Vec<RegisterFrame>,
    /// Kana display mode active when ▽ (midashi) mode was entered.
    pub(crate) midashi_display_mode: KanaMode,
    /// True when the current midashi/conversion was entered via abbrev mode.
    pub(crate) midashi_is_abbrev: bool,
    /// Active completion ghost text, only meaningful when phase == Midashi.
    pub(crate) completion: Option<CompletionState>,
    /// When conversion was started by a trigger character (e.g. ',' '.' 'を'),
    /// the string to append after the committed candidate.
    pub(crate) conversion_trigger: Option<String>,
}

// ── Mathematical model ───────────────────────────────────────────────────────

/// Mathematical form of an [`SkkPhase`].
pub enum PhaseView {
    Hiragana,
    Katakana,
    HalfWidthKatakana,
    WideAscii,
    Ascii,
    CodeInput { prefix: CodeInputPrefix, buf: Seq<char> },
    Abbrev { buf: Seq<char> },
    Midashi { kana_buf: Seq<char>, roman_buf: Seq<char> },
    Okuri { midashi: Seq<char>, okuri_prefix: char, kana_buf: Seq<char> },
    Selecting {
        midashi: Seq<char>,
        okuri: Option<Seq<char>>,
        okuri_key: Option<Seq<char>>,
        candidates: Seq<CandidateView>,
        index: nat,
    },
}

/// Mathematical form of an [`EngineAction`].
pub enum ActionView {
    Commit(Seq<char>),
    UpdatePreedit(Seq<char>, nat),
    ClearPreedit,
    ShowCandidates(Seq<CandidateView>, nat, Seq<char>),
    HideCandidates,
    UpdateStatus(Seq<char>),
    Passthrough,
}

/// Mathematical form of a [`RegisterFrame`].
pub struct FrameView {
    pub midashi: Seq<char>,
    pub okuri_key: Option<Seq<char>>,
    pub okuri_kana: Option<Seq<char>>,
    pub committed: Seq<char>,
    pub cursor: nat,
    pub is_abbrev: bool,
}

pub open spec fn opt_view(o: Option<String>) -> Option<Seq<char>> {
    match o {
        Some(s) => Some(s@),
        None => None,
    }
}

impl View for SkkPhase {
    type V = PhaseView;

    open spec fn view(&self) -> PhaseView {
        match self {
            SkkPhase::Hiragana => PhaseView::Hiragana,
            SkkPhase::Katakana => PhaseView::Katakana,
            SkkPhase::HalfWidthKatakana => PhaseView::HalfWidthKatakana,
            SkkPhase::WideAscii => PhaseView::WideAscii,
            SkkPhase::Ascii => PhaseView::Ascii,
            SkkPhase::CodeInput { prefix, buf } => PhaseView::CodeInput { prefix: *prefix, buf: buf@ },
            SkkPhase::Abbrev { buf } => PhaseView::Abbrev { buf: buf@ },
            SkkPhase::Midashi { kana_buf, roman_buf } => PhaseView::Midashi {
                kana_buf: kana_buf@,
                roman_buf: roman_buf@,
            },
            SkkPhase::Okuri { midashi, okuri_prefix, kana_buf } => PhaseView::Okuri {
                midashi: midashi@,
                okuri_prefix: *okuri_prefix,
                kana_buf: kana_buf@,
            },
            SkkPhase::Selecting { midashi, okuri, okuri_key, candidates, index } => PhaseView::Selecting {
                midashi: midashi@,
                okuri: opt_view(*okuri),
                okuri_key: opt_view(*okuri_key),
                candidates: cands_view(candidates@),
                index: *index as nat,
            },
        }
    }
}

impl View for EngineAction {
    type V = ActionView;

    open spec fn view(&self) -> ActionView {
        match self {
            EngineAction::Commit(s) => ActionView::Commit(s@),
            EngineAction::UpdatePreedit(p) => ActionView::UpdatePreedit(p.text@, p.cursor as nat),
            EngineAction::ClearPreedit => ActionView::ClearPreedit,
            EngineAction::ShowCandidates(cs, i, keys) => ActionView::ShowCandidates(
                cands_view(cs@),
                *i as nat,
                keys@,
            ),
            EngineAction::HideCandidates => ActionView::HideCandidates,
            EngineAction::UpdateStatus(s) => ActionView::UpdateStatus(s@),
            EngineAction::Passthrough => ActionView::Passthrough,
        }
    }
}

impl View for RegisterFrame {
    type V = FrameView;

    open spec fn view(&self) -> FrameView {
        FrameView {
            midashi: self.midashi@,
            okuri_key: opt_view(self.okuri_key),
            okuri_kana: opt_view(self.okuri_kana),
            committed: self.committed@,
            cursor: self.cursor as nat,
            is_abbrev: self.is_abbrev,
        }
    }
}

pub open spec fn actions_view(v: Seq<EngineAction>) -> Seq<ActionView> {
    v.map_values(|a: EngineAction| a@)
}

pub open spec fn frames_view(v: Seq<RegisterFrame>) -> Seq<FrameView> {
    v.map_values(|f: RegisterFrame| f@)
}

/// The cursor of a frame sits on a character boundary of its text.
pub open spec fn frame_wf(f: FrameView) -> bool {
    exists|k: int| 0 <= k <= f.committed.len() && byte_len(#[trigger] f.committed.take(k)) == f.cursor
}

/// The phase is internally consistent.
pub open spec fn phase_wf(p: PhaseView) -> bool {
    match p {
        PhaseView::Selecting { candidates, index, .. } => index < candidates.len(),
        _ => true,
    }
}

/// The mode indicator of a kana display mode.
pub open spec fn mode_indicator(m: KanaMode) -> char {
    match m {
        KanaMode::Katakana => 'ア',
        KanaMode::HalfWidth => 'ｱ',
        KanaMode::Hiragana => 'あ',
    }
}

/// The mode indicator shown for a phase.
pub open spec fn phase_indicator(p: PhaseView, display: KanaMode) -> char {
    match p {
        PhaseView::Katakana => 'ア',
        PhaseView::HalfWidthKatakana => 'ｱ',
        PhaseView::Ascii => 'a',
        PhaseView::WideAscii => 'Ａ',
        PhaseView::Abbrev { .. } | PhaseView::Midashi { .. } | PhaseView::Okuri { .. }
        | PhaseView::Selecting { .. } => mode_indicator(display),
        _ => 'あ',
    }
}

/// The kana phase of a display mode.
pub open spec fn phase_of_mode(m: KanaMode) -> PhaseView {
    match m {
        KanaMode::Katakana => PhaseView::Katakana,
        KanaMode::HalfWidth => PhaseView::HalfWidthKatakana,
        KanaMode::Hiragana => PhaseView::Hiragana,
    }
}

/// Phases that an engine may be created in.
pub open spec fn is_plain_mode(p: PhaseView) -> bool {
    p is Hiragana || p is Katakana || p is HalfWidthKatakana || p is WideAscii || p is Ascii
}

impl SkkEngine {
    pub closed spec fn spec_phase(&self) -> PhaseView {
        self.phase@
    }

    pub closed spec fn spec_kana_state(&self) -> Seq<char> {
        self.kana_state@
    }

    pub closed spec fn spec_stack(&self) -> Seq<FrameView> {
        frames_view(self.register_stack@)
    }

    pub closed spec fn spec_display_mode(&self) -> KanaMode {
        self.midashi_display_mode
    }

    pub closed spec fn spec_dict_priorities(&self) -> Seq<i32> {
        self.dict_priority@
    }

    /// The attached dictionaries, in the order they are consulted.
    pub closed spec fn spec_dicts(&self) -> Seq<Box<dyn DictionaryProvider>> {
        self.dict@
    }

    pub closed spec fn spec_table(&self) -> KanaTable {
        self.kana_table
    }

    pub closed spec fn spec_keybindings(&self) -> SkkKeybindings {
        self.keybindings
    }

    /// The mode indicator shown for the current state.
    pub open spec fn spec_indicator(&self) -> char {
        phase_indicator(self.spec_phase(), self.spec_display_mode())
    }

    /// The preedit shown for the current state: text and byte cursor.
    pub closed spec fn spec_preedit(&self) -> (Seq<char>, nat) {
        self.preedit_view()
    }

    /// The action that shows the current preedit.
    pub open spec fn spec_preedit_action(&self) -> ActionView {
        ActionView::UpdatePreedit(self.spec_preedit().0, self.spec_preedit().1)
    }

    /// A kana phase with no pending roman input.
    pub open spec fn registration_ready(&self) -> bool {
        &&& (self.spec_phase() is Hiragana || self.spec_phase() is Katakana || self.spec_phase() is HalfWidthKatakana)
        &&& self.spec_kana_state().len() == 0
    }

    /// Internal consistency of the engine.
    pub closed spec fn wf(&self) -> bool {
        self.inv()
    }

    pub(crate) open spec fn inv(&self) -> bool {
        &&& phase_wf(self.phase@)
        &&& self.kana_table.spec_no_start_wildcard()
        &&& forall|i: int| 0 <= i < self.register_stack@.len() ==> frame_wf(#[trigger] self.register_stack@[i]@)
        &&& forall|i: int, j: int| 0 <= i < j < self.dict_priority@.len() ==> self.dict_priority@[i] >= self.dict_priority@[j]
    }

    pub fn new(kana_table: KanaTable, keybindings: SkkKeybindings) -> (r: Self)
        requires
            kana_table.spec_no_start_wildcard(),
        ensures
            r.wf(),
            r.spec_phase() == PhaseView::Hiragana,
            r.spec_kana_state() == Seq::<char>::empty(),
            r.spec_stack() == Seq::<FrameView>::empty(),
            r.spec_dict_priorities() == Seq::<i32>::empty(),
            r.spec_display_mode() == KanaMode::Hiragana,
            r.spec_table() == kana_table,
            r.spec_keybindings() == keybindings,
    {
        let r = Self {
            phase: SkkPhase::Hiragana,
            kana_state: String::new(),
            kana_table,
            keybindings,
            dict: Vec::new(),
            dict_priority: Vec::new(),
            register_stack: Vec::new(),
            midashi_display_mode: KanaMode::Hiragana,
            midashi_is_abbrev: false,
            completion: None,
            conversion_trigger: None,
        };
        assert(frames_view(r.register_stack@) =~= Seq::<FrameView>::empty());
        r
    }

    /// Sets the initial input phase (builder pattern).
    /// Only "safe" phases (Hiragana, Katakana, HalfWidthKatakana, WideAscii, Ascii) are accepted;
    /// mid-conversion phases are silently ignored.
    pub fn with_initial_phase(self, phase: SkkPhase) -> (r: Self)
        requires
            self.wf(),
        ensures
            r.wf(),
            is_plain_mode(phase@) ==> r.spec_phase() == phase@,
            !is_plain_mode(phase@) ==> r.spec_phase() == self.spec_phase(),
            r.spec_kana_state() == self.spec_kana_state(),
            r.spec_stack() == self.spec_stack(),
            r.spec_display_mode() == self.spec_display_mode(),
            r.spec_dict_priorities() == self.spec_dict_priorities(),
    {
        let mut s = self;
        match phase {
            SkkPhase::Hiragana
            | SkkPhase::Katakana
            | SkkPhase::HalfWidthKatakana
            | SkkPhase::WideAscii
            | SkkPhase::Ascii => s.phase = phase,
            _ => {},
        }
        s
    }

    /// Attaches a dictionary provider.  Providers are kept ordered by
    /// priority, highest first; among equal priorities, in the order added.
    #[verifier::loop_isolation(false)]
    pub fn add_dict(&mut self, provider: Box<dyn DictionaryProvider>)
        requires
            old(self).wf(),
        ensures
            final(self).wf(),
            final(self).spec_phase() == old(self).spec_phase(),
            final(self).spec_stack() == old(self).spec_stack(),
            final(self).spec_kana_state() == old(self).spec_kana_state(),
            exists|k: int| 0 <= k <= old(self).spec_dict_priorities().len()
                && final(self).spec_dict_priorities() == old(self).spec_dict_priorities().insert(k, #[trigger] final(self).spec_dict_priorities()[k])
                && final(self).spec_dicts() == old(self).spec_dicts().insert(
                if k <= old(self).spec_dicts().len() { k } else { old(self).spec_dicts().len() as int },
                provider,
            )
                && (forall|j: int| 0 <= j < k ==> old(self).spec_dict_priorities()[j] >= final(self).spec_dict_priorities()[k])
                && (forall|j: int| k <= j < old(self).spec_dict_priorities().len() ==> old(self).spec_dict_priorities()[j] < final(self).spec_dict_priorities()[k]),
    {
        let p = provider.priority();
        let ghost ps = self.dict_priority@;
        let mut k: usize = 0;
        while k < self.dict_priority.len() && self.dict_priority[k] >= p
            invariant
                k <= self.dict_priority.len(),
                ps == self.dict_priority@,
                forall|j: int| 0 <= j < k ==> ps[j] >= p,
            decreases self.dict_priority.len() - k,
        {
            k += 1;
        }
        proof {
            assert forall|j: int| k <= j < ps.len() implies ps[j] < p by {
                if k < ps.len() {
                    assert(ps[k as int] < p);
                    if j > k {
                        assert(ps[k as int] >= ps[j]);
                    }
                }
            }
        }
        let ghost ds = self.dict@;
        let at = if k <= self.dict.len() { k } else { self.dict.len() };
        let ghost prov = provider;
        self.dict.insert(at, provider);
        self.dict_priority.insert(k, p);
        proof {
            let n = self.dict_priority@;
            assert(n == ps.insert(k as int, p));
            assert(n[k as int] == p);
            assert(self.spec_dict_priorities() == ps.insert(k as int, self.spec_dict_priorities()[k as int]));
            assert(self.dict@ == ds.insert(at as int, prov));
            assert forall|i: int, j: int| 0 <= i < j < n.len() implies n[i] >= n[j] by {
                if j < k {
                } else if j == k {
                } else if i < k {
                    assert(n[j] == ps[j - 1]);
                } else if i == k {
                    assert(n[j] == ps[j - 1]);
                } else {
                    assert(n[i] == ps[i - 1] && n[j] == ps[j - 1]);
                }
            }
        }
    }

    /// Processes a key event and returns zero or more actions for the
    /// platform adapter.  A release is passed through untouched; a press is
    /// followed by a status update exactly when the mode indicator changed.
    pub fn process_key(&mut self, event: &KeyEvent) -> (r: Vec<EngineAction>)
        requires
            old(self).wf(),
        ensures
            final(self).wf(),
            !event.is_press ==> actions_view(r@) == seq![ActionView::Passthrough] && *final(self) == *old(self),
            event.is_press && final(self).spec_indicator() == old(self).spec_indicator() ==> press_outcome(
                *old(self),
                *final(self),
                *event,
                actions_view(r@),
            ),
            event.is_press && final(self).spec_indicator() != old(self).spec_indicator() ==> {
                &&& actions_view(r@).len() > 0
                &&& actions_view(r@).last() == ActionView::UpdateStatus(seq![final(self).spec_indicator()])
                &&& press_outcome(*old(self), *final(self), *event, actions_view(r@).drop_last())
            },
    {
        if !event.is_press {
            return acts1(EngineAction::Passthrough);
        }
        let before = self.current_mode_indicator();
        let mut actions = self.handle_press(event);
        let after = self.current_mode_indicator();
        if after != before {
            let ghost a0 = actions_view(actions@);
            push_act(&mut actions, EngineAction::UpdateStatus(char_to_string(after)));
            assert(actions_view(actions@).drop_last() =~= a0);
        }
        actions
    }

    pub fn phase(&self) -> (r: &SkkPhase)
        ensures
            r@ == self.spec_phase(),
    {
        &self.phase
    }

    /// The pending roman input of the kana state machine.
    pub fn kana_state(&self) -> (r: &str)
        ensures
            r@ == self.spec_kana_state(),
    {
        self.kana_state.as_str()
    }

    /// The registration frames, outermost first.
    pub fn register_stack(&self) -> (r: &[RegisterFrame])
        ensures
            frames_view(r@) == self.spec_stack(),
    {
        self.register_stack.as_slice()
    }

    /// The completion shown as ghost text in ▽ mode, if any.
    pub closed spec fn spec_completion_preview(&self) -> Option<Seq<char>> {
        match self.completion {
            Some(c) => Some(c.preview@),
            None => None,
        }
    }

    /// The completion shown as ghost text in ▽ mode, if any.
    pub fn completion_preview(&self) -> (r: Option<&str>)
        ensures
            match r {
                Some(s) => self.spec_completion_preview() == Some(s@),
                None => self.spec_completion_preview() is None,
            },
    {
        match &self.completion {
            Some(c) => Some(c.preview.as_str()),
            None => None,
        }
    }

    /// Number of attached dictionaries.
    pub closed spec fn dict_count(&self) -> nat {
        self.dict@.len()
    }

    /// The dictionary at position `i` (highest priority first).
    pub fn dict(&self, i: usize) -> (r: Option<&Box<dyn DictionaryProvider>>)
        ensures
            r is Some <==> i < self.dict_count(),
    {
        if i < self.dict.len() {
            Some(&self.dict[i])
        } else {
            None
        }
    }
}

} // verus!
