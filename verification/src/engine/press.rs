//! Dispatch of a key press: registration-mode keys, the IME toggle keys,
//! then the handler of the current phase.

use vstd::prelude::*;

use crate::config::SkkKeybindings;
use crate::dict::entry::clone_candidates;
use crate::dict::entry::clone_opt_str;
use crate::dict::entry::CandidateView;
use crate::engine::code::{spec_decode_jis, spec_decode_unicode, spec_wide_ascii};
use crate::engine::handlers::{
    acts1, acts_wf, cancel_outcome, commit_text, commits_of, kept_of, needs_preedit, ctrl_held, edit_frame, feed_spec, is_ctrl_char, kana_feeds, keeps_config, key_in,
    mode_of_phase, next_index, no_passthrough, pre_of, prev_index, same_frames, stack_grows_by_one, with_top,
};
use crate::engine::preedit::opt_or_empty;
use crate::engine::register::frame_insert;
use crate::engine::{
    actions_view, frames_view, phase_of_mode, ActionView, CodeInputPrefix, EngineAction, FrameView, PhaseView, SkkEngine,
    SkkPhase,
};
use crate::key::{has_ctrl, spec_printable_char, Key, KeyEvent, Modifiers};
use crate::text::char_to_string;

verus! {

/// Whether the event is one of the configured IME toggle keys
/// (same key, same modifiers).
pub open spec fn is_toggle(kb: SkkKeybindings, e: KeyEvent) -> bool {
    exists|i: int| 0 <= i < kb.toggle_keys@.len() && #[trigger] kb.toggle_keys@[i] == (e.key, e.modifiers)
}

/// The registration-buffer edit of a cursor key: 0 backspace, 1 delete,
/// 2 left, 3 right.
pub open spec fn edit_code(k: Key) -> Option<u8> {
    match k {
        Key::BackSpace => Some(0u8),
        Key::Delete => Some(1u8),
        Key::Left => Some(2u8),
        Key::Right => Some(3u8),
        _ => None,
    }
}

/// A kana phase with no pending roman input: keys edit the registration
/// buffer directly.
pub(crate) open spec fn reg_ready(e: SkkEngine) -> bool {
    &&& (e.phase@ is Hiragana || e.phase@ is Katakana || e.phase@ is HalfWidthKatakana)
    &&& e.kana_state@.len() == 0
}

/// The text typed in ▽/abbrev/okuri mode, flushed into the registration
/// buffer by Return.
pub open spec fn flush_text(p: PhaseView) -> Seq<char> {
    match p {
        PhaseView::Abbrev { buf } => buf,
        PhaseView::Midashi { kana_buf, .. } => kana_buf,
        PhaseView::Okuri { midashi, .. } => midashi,
        _ => Seq::empty(),
    }
}

/// While a word is being registered, whether the press is not taken by the
/// registration itself (Return, Escape and the cursor keys on the buffer,
/// C-g, Return flushing a ▽/abbrev/okuri text, typing in ASCII mode) and
/// goes on to the handler of the current phase.
pub open spec fn reg_passes_key(o: SkkEngine, e: KeyEvent) -> bool {
    &&& o.spec_stack().len() > 0
    &&& !is_ctrl_char(e, 'g')
    &&& if o.registration_ready() {
        e.key != Key::Return && e.key != Key::Escape && edit_code(e.key) is None
    } else {
        &&& !(e.key == Key::Return && (o.spec_phase() is Abbrev || o.spec_phase() is Midashi || o.spec_phase() is Okuri))
        &&& o.spec_phase() is Ascii ==> e.key != Key::Return && e.key != Key::Escape && edit_code(e.key) is None
            && !(spec_printable_char(e.key) is Some && !has_ctrl(e.modifiers))
    }
}

/// One way a press passed on during registration can go: the phase handler
/// takes `o` to `mid` with the actions `raw`, as it would outside
/// registration, and the text it commits is inserted into the word being
/// registered (the top frame of `mid`) instead of reaching the application;
/// only the candidate-window and status actions are kept, followed by a
/// preedit update when the handler touched the preedit or kept nothing.
pub closed spec fn intercepted(
    o: SkkEngine,
    mid: SkkEngine,
    f: SkkEngine,
    e: KeyEvent,
    raw: Seq<ActionView>,
    acts: Seq<ActionView>,
) -> bool {
    &&& dispatch_outcome(o, mid, e, raw)
    &&& stack_grows_by_one(o, mid)
    &&& frames_view(f.register_stack@) == with_top(
        frames_view(mid.register_stack@),
        frame_insert(frames_view(mid.register_stack@).last(), commits_of(raw)),
    )
    &&& f.phase == mid.phase
    &&& f.kana_state == mid.kana_state
    &&& f.midashi_display_mode == mid.midashi_display_mode
    &&& acts == kept_of(raw) + (if needs_preedit(raw) || kept_of(raw).len() == 0 {
        seq![pre_of(f)]
    } else {
        Seq::empty()
    })
}

/// What a press passed on during registration does (see [`intercepted`]).
pub closed spec fn register_passes_on(o: SkkEngine, f: SkkEngine, e: KeyEvent, acts: Seq<ActionView>) -> bool {
    exists|mid: SkkEngine, raw: Seq<ActionView>| #[trigger] intercepted(o, mid, f, e, raw, acts)
}

/// What a key press does, stated over the public model: `o` before,
/// `f` after, `acts` the actions of the press (without a status update).
pub open spec fn press_outcome(o: SkkEngine, f: SkkEngine, e: KeyEvent, acts: Seq<ActionView>) -> bool {
    &&& f.spec_table() == o.spec_table()
    &&& f.spec_keybindings() == o.spec_keybindings()
    &&& f.spec_dict_priorities() == o.spec_dict_priorities()
    &&& acts_wf(acts)
    &&& o.spec_stack().len() > 0 ==> no_passthrough(acts)
    &&& ({
            let fs = o.spec_stack();
            let top = fs.last();
            fs.len() > 0 && (o.registration_ready() || o.spec_phase() is Ascii) ==> {
                &&& e.key == Key::Return && top.committed.len() == 0 ==> f.spec_stack() == fs.drop_last()
                &&& e.key == Key::Return && top.committed.len() > 0 ==> f.spec_phase() == PhaseView::Hiragana
                    && (fs.len() == 1 ==> f.spec_stack().len() == 0 && acts == seq![
                        ActionView::Commit(top.committed + opt_or_empty(top.okuri_kana)),
                        ActionView::ClearPreedit,
                    ])
                    && (fs.len() > 1 ==> f.spec_stack() == with_top(
                        fs.drop_last(),
                        frame_insert(fs.drop_last().last(), top.committed),
                    ))
                &&& e.key == Key::Escape ==> f.spec_stack() == fs.drop_last()
                &&& edit_code(e.key) is Some ==> f.spec_phase() == o.spec_phase()
                    && f.spec_stack() == with_top(fs, edit_frame(top, edit_code(e.key)->0))
                    && acts == seq![f.spec_preedit_action()]
            }
        })
    &&& ({
            let fs = o.spec_stack();
            fs.len() > 0 && is_ctrl_char(e, 'g') ==> f.spec_stack() == fs.drop_last()
                && f.spec_kana_state().len() == 0
        })
    &&& ({
            let fs = o.spec_stack();
            fs.len() > 0 && !o.registration_ready() && !is_ctrl_char(e, 'g') && e.key == Key::Return
                && (o.spec_phase() is Abbrev || o.spec_phase() is Midashi || o.spec_phase() is Okuri) ==> {
                &&& f.spec_phase() == PhaseView::Hiragana
                &&& f.spec_kana_state().len() == 0
                &&& f.spec_stack() == with_top(fs, frame_insert(fs.last(), flush_text(o.spec_phase())))
                &&& acts == seq![f.spec_preedit_action()]
            }
        })
    &&& ({
            let fs = o.spec_stack();
            fs.len() > 0 && o.spec_phase() is Ascii && spec_printable_char(e.key) is Some && !has_ctrl(e.modifiers) ==> {
                &&& f.spec_phase() == PhaseView::Ascii
                &&& f.spec_stack() == with_top(
                    fs,
                    frame_insert(fs.last(), seq![spec_printable_char(e.key)->0]),
                )
                &&& acts == seq![f.spec_preedit_action()]
            }
        })
    &&& reg_passes_key(o, e) ==> register_passes_on(o, f, e, acts)
    &&& o.spec_stack().len() == 0 && is_toggle(o.spec_keybindings(), e) ==> {
            &&& f.spec_phase() == (if o.spec_phase() is Ascii { PhaseView::Hiragana } else { PhaseView::Ascii })
            &&& !(o.spec_phase() is Ascii) ==> f.spec_kana_state().len() == 0
            &&& f.spec_stack().len() == 0
            &&& acts == seq![ActionView::ClearPreedit]
        }
    &&& o.spec_stack().len() == 0 && f.spec_stack().len() == 0 && !is_toggle(o.spec_keybindings(), e) ==> dispatch_outcome(o, f, e, acts)
    &&& o.spec_stack().len() == 0 && !is_toggle(o.spec_keybindings(), e) && o.spec_phase() is Ascii ==> {
            &&& f.spec_stack().len() == 0
            &&& (is_ctrl_char(e, 'j') || is_ctrl_char(e, 'q')) ==> f.spec_phase() == PhaseView::Hiragana
                && acts == seq![ActionView::ClearPreedit]
            &&& !(is_ctrl_char(e, 'j') || is_ctrl_char(e, 'q')) ==> f.spec_phase() == PhaseView::Ascii
                && acts == seq![ActionView::Passthrough]
        }
}

// ── What each phase does with a key ─────────────────────────────────────────

/// What a key does in ASCII mode: `o` before, `f` after, `acts` the actions.
pub closed spec fn ascii_outcome(o: SkkEngine, f: SkkEngine, e: KeyEvent, acts: Seq<ActionView>) -> bool {
    &&& f.inv()
    &&& keeps_config(o, f)
    &&& f.register_stack@ == o.register_stack@
    &&& f.kana_state@ == o.kana_state@
    &&& (is_ctrl_char(e, 'j') || is_ctrl_char(e, 'q')) ==> f.phase@ == PhaseView::Hiragana
        && acts == seq![ActionView::ClearPreedit]
    &&& !(is_ctrl_char(e, 'j') || is_ctrl_char(e, 'q')) ==> f.phase@ == o.phase@
        && acts == seq![ActionView::Passthrough]
    &&& acts_wf(acts)
}

/// What a key does in wide-ASCII mode: `o` before, `f` after, `acts` the actions.
pub closed spec fn wide_ascii_outcome(o: SkkEngine, f: SkkEngine, e: KeyEvent, acts: Seq<ActionView>) -> bool {
    &&& f.inv()
    &&& keeps_config(o, f)
    &&& f.register_stack@ == o.register_stack@
    &&& f.kana_state@ == o.kana_state@
    &&& (is_ctrl_char(e, 'j') || is_ctrl_char(e, 'q')) ==> f.phase@ == PhaseView::Hiragana
        && acts == seq![ActionView::ClearPreedit]
    &&& !(is_ctrl_char(e, 'j') || is_ctrl_char(e, 'q')) ==> f.phase@ == o.phase@
        && acts == (match spec_printable_char(e.key) {
            Some(c) => match spec_wide_ascii(c) {
                Some(w) => seq![ActionView::Commit(seq![w])],
                None => seq![ActionView::Passthrough],
            },
            None => seq![ActionView::Passthrough],
        })
    &&& acts_wf(acts)
}

/// What a key does in a kana mode: `o` before, `f` after, `acts` the actions.
pub closed spec fn kana_outcome(o: SkkEngine, f: SkkEngine, e: KeyEvent, acts: Seq<ActionView>) -> bool {
    &&& f.inv()
    &&& keeps_config(o, f)
    &&& stack_grows_by_one(o, f)
    &&& acts_wf(acts)
    &&& is_ctrl_char(e, 'j') ==> f.phase@ == PhaseView::Hiragana && f.kana_state@.len() == 0
        && acts == seq![ActionView::ClearPreedit]
    &&& is_ctrl_char(e, 'q') ==> f.phase@ == (if o.phase@ is HalfWidthKatakana {
        PhaseView::Hiragana
    } else {
        PhaseView::HalfWidthKatakana
    }) && f.kana_state@.len() == 0 && acts == seq![ActionView::ClearPreedit]
    &&& e.key == Key::Escape ==> f.phase == o.phase && f.kana_state@.len() == 0
        && acts == seq![ActionView::ClearPreedit, ActionView::Passthrough]
    &&& e.key == Key::BackSpace ==> f.phase == o.phase && (if o.kana_state@.len() > 0 {
        f.kana_state@ == o.kana_state@.drop_last() && acts == seq![pre_of(f)]
    } else {
        acts == seq![ActionView::Passthrough]
    })
    &&& ({
        let ch = spec_printable_char(e.key).unwrap();
        let kb = o.keybindings;
        spec_printable_char(e.key) is Some && e.key != Key::Escape && e.key != Key::BackSpace && !has_ctrl(e.modifiers)
            && o.kana_state@.len() == 0 ==> {
            &&& kb.ascii_mode@.contains(ch) ==> f.phase@ == PhaseView::Ascii
                && acts == seq![ActionView::ClearPreedit]
            &&& !kb.ascii_mode@.contains(ch) && kb.wide_ascii_mode@.contains(ch) ==> f.phase@ == PhaseView::WideAscii
                && acts == seq![ActionView::ClearPreedit]
            &&& !kb.ascii_mode@.contains(ch) && !kb.wide_ascii_mode@.contains(ch) && kb.abbrev_mode@.contains(ch)
                ==> f.phase@ == (PhaseView::Abbrev { buf: Seq::empty() }) && f.midashi_is_abbrev
                && f.midashi_display_mode == mode_of_phase(o.phase@)
                && acts == seq![pre_of(f)]
            &&& !kb.ascii_mode@.contains(ch) && !kb.wide_ascii_mode@.contains(ch) && !kb.abbrev_mode@.contains(ch)
                && kb.katakana_mode@.contains(ch) ==> f.phase@ == (if o.phase@ is Hiragana {
                PhaseView::Katakana
            } else {
                PhaseView::Hiragana
            }) && acts == seq![ActionView::ClearPreedit]
        }
    })
    &&& kana_feeds(o, e) ==> {
        &&& f.phase == o.phase
        &&& f.kana_state@ == feed_spec(o, o.kana_state@, spec_printable_char(e.key).unwrap(), mode_of_phase(o.phase@), 1).0
        &&& acts == feed_spec(o, o.kana_state@, spec_printable_char(e.key).unwrap(), mode_of_phase(o.phase@), 1).1
    }
}

/// What a key does in code input: `o` before, `f` after, `acts` the actions.
pub closed spec fn code_input_outcome(o: SkkEngine, f: SkkEngine, e: KeyEvent, acts: Seq<ActionView>, prefix: CodeInputPrefix, buf: Seq<char>) -> bool {
    &&& f.inv()
    &&& same_frames(o, f)
    &&& f.conversion_trigger == o.conversion_trigger
    &&& acts_wf(acts)
    &&& no_passthrough(acts)
    &&& e.key == Key::Escape ==> f.phase@ == phase_of_mode(o.midashi_display_mode)
        && f.kana_state@.len() == 0 && acts == seq![ActionView::ClearPreedit]
    &&& e.key == Key::BackSpace ==> (if buf.len() > 0 {
        f.phase@ == (PhaseView::CodeInput { prefix, buf: buf.drop_last() })
            && acts == seq![pre_of(f)]
    } else if prefix is Unicode {
        f.phase@ == (PhaseView::CodeInput { prefix: CodeInputPrefix::Jis, buf: Seq::empty() })
            && acts == seq![pre_of(f)]
    } else {
        f.phase@ == phase_of_mode(o.midashi_display_mode)
            && acts == seq![ActionView::ClearPreedit]
    })
    &&& e.key != Key::Escape && e.key != Key::BackSpace && prefix is Jis && buf.len() == 0
        && e.key == Key::Char('u') ==> f.phase@ == (PhaseView::CodeInput {
        prefix: CodeInputPrefix::Unicode,
        buf: Seq::empty(),
    }) && acts == seq![pre_of(f)]
    &&& e.key != Key::Escape && e.key != Key::BackSpace && !(prefix is Jis && buf.len() == 0
        && e.key == Key::Char('u')) && (e.key == Key::Return || is_ctrl_char(e, 'j'))
        ==> f.phase@ == phase_of_mode(o.midashi_display_mode) && acts == (match (if prefix is Jis {
            spec_decode_jis(buf)
        } else {
            spec_decode_unicode(buf)
        }) {
            Some(t) => seq![ActionView::Commit(t), ActionView::ClearPreedit],
            None => seq![ActionView::ClearPreedit],
        })
}

/// What a key does in abbrev mode: `o` before, `f` after, `acts` the actions.
pub closed spec fn abbrev_outcome(o: SkkEngine, f: SkkEngine, e: KeyEvent, acts: Seq<ActionView>, buf: Seq<char>) -> bool {
    &&& f.inv()
    &&& keeps_config(o, f)
    &&& f.midashi_display_mode == o.midashi_display_mode
    &&& acts_wf(acts)
    &&& stack_grows_by_one(o, f)
    &&& e.key == Key::Escape ==> f.phase@ == phase_of_mode(o.midashi_display_mode)
        && acts == seq![ActionView::ClearPreedit]
    &&& e.key == Key::BackSpace ==> (if buf.len() == 0 {
        f.phase@ == phase_of_mode(o.midashi_display_mode)
            && acts == seq![ActionView::ClearPreedit]
    } else {
        f.phase@ == (PhaseView::Abbrev { buf: buf.drop_last() })
            && acts == seq![pre_of(f)]
    })
    &&& is_ctrl_char(e, 'j') ==> f.phase@ == phase_of_mode(o.midashi_display_mode)
        && acts == (if buf.len() == 0 {
            seq![ActionView::ClearPreedit]
        } else {
            seq![ActionView::Commit(buf), ActionView::ClearPreedit]
        })
    &&& e.key == Key::Return ==> f.phase@ == phase_of_mode(o.midashi_display_mode)
        && acts == (if buf.len() == 0 {
            seq![ActionView::ClearPreedit, ActionView::Passthrough]
        } else {
            seq![ActionView::Commit(buf), ActionView::ClearPreedit, ActionView::Passthrough]
        })
    &&& (e.key matches Key::Char(c) && !has_ctrl(e.modifiers)) ==> f.phase@ == (PhaseView::Abbrev {
        buf: buf.push(e.key->Char_0),
    }) && acts == seq![pre_of(f)]
    &&& e.key != Key::Return ==> no_passthrough(acts)
}

/// What a key does in ▽ (midashi) mode: `o` before, `f` after, `acts` the actions.
pub closed spec fn midashi_outcome(o: SkkEngine, f: SkkEngine, e: KeyEvent, acts: Seq<ActionView>, kana_buf: Seq<char>, roman_buf: Seq<char>) -> bool {
    &&& f.inv()
    &&& keeps_config(o, f)
    &&& f.midashi_display_mode == o.midashi_display_mode
    &&& stack_grows_by_one(o, f)
    &&& acts_wf(acts)
    &&& e.key == Key::Escape ==> f.phase@ == PhaseView::Hiragana && f.kana_state@.len() == 0
        && f.completion is None && acts == seq![ActionView::ClearPreedit]
    &&& e.key == Key::BackSpace ==> (if roman_buf.len() > 0 {
        &&& f.phase@ == (PhaseView::Midashi { kana_buf: kana_buf, roman_buf: roman_buf.drop_last() })
        &&& f.kana_state@ == roman_buf.drop_last()
        &&& acts == seq![pre_of(f)]
    } else if kana_buf.len() > 0 {
        &&& f.phase@ == (PhaseView::Midashi { kana_buf: kana_buf.drop_last(), roman_buf: roman_buf })
        &&& f.kana_state@.len() == 0
        &&& acts == seq![pre_of(f)]
    } else {
        &&& f.phase@ == PhaseView::Hiragana
        &&& f.kana_state@.len() == 0
        &&& acts == seq![ActionView::ClearPreedit]
    })
    &&& e.key == Key::Return ==> ({
        let k = if roman_buf == seq!['n'] { kana_buf.push('ん') } else { kana_buf };
        &&& f.phase@ == phase_of_mode(o.midashi_display_mode)
        &&& f.kana_state@.len() == 0
        &&& acts == (if k.len() == 0 {
            seq![ActionView::ClearPreedit, ActionView::Passthrough]
        } else {
            seq![ActionView::Commit(k), ActionView::ClearPreedit, ActionView::Passthrough]
        })
    })
}

/// What a key does in okurigana input: `o` before, `f` after, `acts` the actions.
pub closed spec fn okuri_outcome(o: SkkEngine, f: SkkEngine, e: KeyEvent, acts: Seq<ActionView>, midashi: Seq<char>, okuri_prefix: char, kana_buf: Seq<char>) -> bool {
    &&& f.inv()
    &&& keeps_config(o, f)
    &&& f.midashi_display_mode == o.midashi_display_mode
    &&& f.conversion_trigger == o.conversion_trigger
    &&& stack_grows_by_one(o, f)
    &&& acts_wf(acts)
    &&& e.key == Key::Escape ==> f.phase@ == PhaseView::Hiragana && f.kana_state@.len() == 0
        && acts == seq![ActionView::ClearPreedit]
    &&& e.key != Key::Escape && spec_printable_char(e.key) is None ==> f.phase == o.phase
        && acts == seq![ActionView::Passthrough]
    &&& e.key != Key::Escape && spec_printable_char(e.key) is Some ==> no_passthrough(acts)
}

/// What a key does in ▼ (candidate selection) mode: `o` before, `f` after, `acts` the actions.
pub closed spec fn selecting_outcome(o: SkkEngine, f: SkkEngine, e: KeyEvent, acts: Seq<ActionView>, midashi: Seq<char>, okuri: Option<Seq<char>>, okuri_key: Option<Seq<char>>, candidates: Seq<CandidateView>, index: nat) -> bool {
    &&& f.inv()
    &&& keeps_config(o, f)
    &&& stack_grows_by_one(o, f)
    &&& acts_wf(acts)
    &&& e.key == Key::Escape ==> f.phase@ == (PhaseView::Midashi { kana_buf: midashi, roman_buf: Seq::empty() })
        && f.conversion_trigger is None
        && acts == seq![ActionView::HideCandidates, pre_of(f)]
    &&& e.key == Key::Space && !key_in(e, o.keybindings.cancel@) ==> match next_index(
        index as int,
        candidates.len() as int,
        o.keybindings.inline_count as int,
        o.keybindings.selection_keys@.len() as int,
    ) {
        Some(n) => f.phase@ == (PhaseView::Selecting {
            midashi: midashi,
            okuri: okuri,
            okuri_key: okuri_key,
            candidates: candidates,
            index: n as nat,
        }) && f.register_stack == o.register_stack,
        None => f.phase@ == PhaseView::Hiragana && frames_view(f.register_stack@)
            == frames_view(o.register_stack@).push(FrameView {
            midashi: midashi,
            okuri_key: okuri_key,
            okuri_kana: okuri,
            committed: Seq::empty(),
            cursor: 0,
            is_abbrev: o.midashi_is_abbrev,
        }),
    }
    &&& e.key != Key::Escape && key_in(e, o.keybindings.cancel@) && index > 0
        ==> f.phase@ == (PhaseView::Selecting {
        midashi: midashi,
        okuri: okuri,
        okuri_key: okuri_key,
        candidates: candidates,
        index: prev_index(index as int, o.keybindings.inline_count as int, o.keybindings.selection_keys@.len() as int) as nat,
    })
    &&& e.key != Key::Escape && !key_in(e, o.keybindings.cancel@)
        && (e.key == Key::Return || e.key == Key::BackSpace) ==> {
        &&& f.phase@ == phase_of_mode(o.midashi_display_mode)
        &&& acts.len() > 0 && acts.last() == ActionView::Passthrough
        &&& acts[1] == ActionView::Commit(commit_text(candidates[index as int], okuri))
    }
}

/// What the handler of the current phase does with a key.
pub closed spec fn dispatch_outcome(o: SkkEngine, f: SkkEngine, e: KeyEvent, acts: Seq<ActionView>) -> bool {
    match o.phase@ {
        PhaseView::Ascii => ascii_outcome(o, f, e, acts),
        PhaseView::Hiragana | PhaseView::Katakana | PhaseView::HalfWidthKatakana => kana_outcome(o, f, e, acts),
        PhaseView::WideAscii => wide_ascii_outcome(o, f, e, acts),
        PhaseView::CodeInput { prefix, buf } => code_input_outcome(o, f, e, acts, prefix, buf),
        PhaseView::Abbrev { buf } => abbrev_outcome(o, f, e, acts, buf),
        PhaseView::Midashi { kana_buf, roman_buf } => midashi_outcome(o, f, e, acts, kana_buf, roman_buf),
        PhaseView::Okuri { midashi, okuri_prefix, kana_buf } => okuri_outcome(o, f, e, acts, midashi, okuri_prefix, kana_buf),
        PhaseView::Selecting { midashi, okuri, okuri_key, candidates, index } => selecting_outcome(
            o,
            f,
            e,
            acts,
            midashi,
            okuri,
            okuri_key,
            candidates,
            index,
        ),
    }
}

fn toggle_hit(keys: &Vec<(Key, Modifiers)>, e: &KeyEvent) -> (r: bool)
    ensures
        r == exists|i: int| 0 <= i < keys@.len() && #[trigger] keys@[i] == (e.key, e.modifiers),
{
    let mut i: usize = 0;
    while i < keys.len()
        invariant
            i <= keys.len(),
            forall|j: int| 0 <= j < i ==> keys@[j] != (e.key, e.modifiers),
        decreases keys.len() - i,
    {
        let (k, m) = keys[i];
        if k == e.key && m == e.modifiers {
            assert(keys@[i as int] == (e.key, e.modifiers));
            return true;
        }
        i += 1;
    }
    false
}

fn edit_code_exec(k: Key) -> (r: Option<u8>)
    ensures
        r == edit_code(k),
{
    match k {
        Key::BackSpace => Some(0u8),
        Key::Delete => Some(1u8),
        Key::Left => Some(2u8),
        Key::Right => Some(3u8),
        _ => None,
    }
}

impl SkkEngine {
    /// Return, Escape, C-g and the cursor keys while the registration
    /// buffer is being edited directly.
    fn reg_buffer_key(&mut self, event: &KeyEvent) -> (r: Option<Vec<EngineAction>>)
        requires
            old(self).inv(),
            old(self).register_stack@.len() > 0,
        ensures
            final(self).inv(),
            keeps_config(*old(self), *final(self)),
            ({
                let fs = frames_view(old(self).register_stack@);
                let top = fs.last();
                &&& event.key == Key::Return && top.committed.len() == 0 ==> r is Some && cancel_outcome(*old(self), *final(self), actions_view(r->0@))
                &&& event.key == Key::Return && top.committed.len() > 0 ==> r is Some && final(self).phase@ == PhaseView::Hiragana
                    && (fs.len() == 1 ==> final(self).register_stack@.len() == 0 && actions_view(r->0@) == seq![
                        ActionView::Commit(top.committed + opt_or_empty(top.okuri_kana)),
                        ActionView::ClearPreedit,
                    ])
                    && (fs.len() > 1 ==> frames_view(final(self).register_stack@) == with_top(
                        fs.drop_last(),
                        frame_insert(fs.drop_last().last(), top.committed),
                    ))
                &&& event.key == Key::Escape ==> r is Some && cancel_outcome(*old(self), *final(self), actions_view(r->0@))
                &&& edit_code(event.key) is Some ==> r is Some && final(self).phase == old(self).phase
                    && frames_view(final(self).register_stack@) == with_top(fs, edit_frame(top, edit_code(event.key)->0))
                    && actions_view(r->0@) == seq![pre_of(*final(self))]
                &&& event.key != Key::Return && event.key != Key::Escape && edit_code(event.key) is None ==> r is None
                    && *final(self) == *old(self)
            }),
            r matches Some(v) ==> acts_wf(actions_view(v@)) && no_passthrough(actions_view(v@)),
    {
        if event.key == Key::Return {
            let empty = self.register_stack[self.register_stack.len() - 1].committed.as_str().is_empty();
            return if empty {
                Some(self.cancel_register())
            } else {
                Some(self.finalize_register())
            };
        }
        if event.key == Key::Escape {
            return Some(self.cancel_register());
        }
        match edit_code_exec(event.key) {
            Some(w) => {
                self.top_edit(w);
                Some(self.preedit_only())
            },
            None => None,
        }
    }

    /// Runs the handler of the current phase.
    fn dispatch(&mut self, event: &KeyEvent) -> (r: Vec<EngineAction>)
        requires
            old(self).inv(),
        ensures
            final(self).inv(),
            keeps_config(*old(self), *final(self)),
            acts_wf(actions_view(r@)),
            stack_grows_by_one(*old(self), *final(self)),
            dispatch_outcome(*old(self), *final(self), *event, actions_view(r@)),
            old(self).phase@ is Ascii ==> {
                &&& final(self).register_stack@ == old(self).register_stack@
                &&& (is_ctrl_char(*event, 'j') || is_ctrl_char(*event, 'q')) ==> final(self).phase@ == PhaseView::Hiragana
                    && actions_view(r@) == seq![ActionView::ClearPreedit]
                &&& !(is_ctrl_char(*event, 'j') || is_ctrl_char(*event, 'q')) ==> final(self).phase@ == PhaseView::Ascii
                    && actions_view(r@) == seq![ActionView::Passthrough]
            },
    {
        let ghost fs = frames_view(self.register_stack@);
        assert(fs.take(fs.len() as int) =~= fs);
        match &self.phase {
            SkkPhase::Ascii => self.handle_ascii(event),
            SkkPhase::Hiragana | SkkPhase::Katakana | SkkPhase::HalfWidthKatakana => self.handle_kana(event),
            SkkPhase::WideAscii => self.handle_wide_ascii(event),
            SkkPhase::CodeInput { prefix, buf } => {
                let p = *prefix;
                let b = buf.clone();
                self.handle_code_input(event, p, b)
            },
            SkkPhase::Abbrev { buf } => {
                let b = buf.clone();
                self.handle_abbrev(event, b)
            },
            SkkPhase::Midashi { kana_buf, roman_buf } => {
                let k = kana_buf.clone();
                let rb = roman_buf.clone();
                self.handle_midashi(event, k, rb, true)
            },
            SkkPhase::Okuri { midashi, okuri_prefix, kana_buf } => {
                let m = midashi.clone();
                let p = *okuri_prefix;
                let k = kana_buf.clone();
                self.handle_okuri(event, m, p, k)
            },
            SkkPhase::Selecting { midashi, okuri, okuri_key, candidates, index } => {
                let m = midashi.clone();
                let o = clone_opt_str(okuri);
                let ok = clone_opt_str(okuri_key);
                let cs = clone_candidates(candidates.as_slice());
                let i = *index;
                self.handle_selecting(event, m, o, ok, cs, i)
            },
        }
    }

    /// Handles a key press.
    #[verifier::rlimit(50)]
    pub(crate) fn handle_press(&mut self, event: &KeyEvent) -> (r: Vec<EngineAction>)
        requires
            old(self).inv(),
        ensures
            final(self).inv(),
            keeps_config(*old(self), *final(self)),
            acts_wf(actions_view(r@)),
            old(self).register_stack@.len() > 0 ==> no_passthrough(actions_view(r@)),
            ({
                let fs = frames_view(old(self).register_stack@);
                let top = fs.last();
                fs.len() > 0 && (reg_ready(*old(self)) || old(self).phase@ is Ascii) ==> {
                    &&& event.key == Key::Return && top.committed.len() == 0 ==> cancel_outcome(*old(self), *final(self), actions_view(r@))
                    &&& event.key == Key::Return && top.committed.len() > 0 ==> final(self).phase@ == PhaseView::Hiragana
                        && (fs.len() == 1 ==> final(self).register_stack@.len() == 0 && actions_view(r@) == seq![
                            ActionView::Commit(top.committed + opt_or_empty(top.okuri_kana)),
                            ActionView::ClearPreedit,
                        ])
                        && (fs.len() > 1 ==> frames_view(final(self).register_stack@) == with_top(
                            fs.drop_last(),
                            frame_insert(fs.drop_last().last(), top.committed),
                        ))
                    &&& event.key == Key::Escape ==> cancel_outcome(*old(self), *final(self), actions_view(r@))
                    &&& edit_code(event.key) is Some ==> final(self).phase == old(self).phase
                        && frames_view(final(self).register_stack@) == with_top(fs, edit_frame(top, edit_code(event.key)->0))
                        && actions_view(r@) == seq![pre_of(*final(self))]
                }
            }),
            ({
                let fs = frames_view(old(self).register_stack@);
                fs.len() > 0 && is_ctrl_char(*event, 'g') ==> cancel_outcome(*old(self), *final(self), actions_view(r@))
            }),
            ({
                let fs = frames_view(old(self).register_stack@);
                fs.len() > 0 && !reg_ready(*old(self)) && !is_ctrl_char(*event, 'g') && event.key == Key::Return
                    && (old(self).phase@ is Abbrev || old(self).phase@ is Midashi || old(self).phase@ is Okuri) ==> {
                    &&& final(self).phase@ == PhaseView::Hiragana
                    &&& final(self).kana_state@.len() == 0
                    &&& frames_view(final(self).register_stack@) == with_top(fs, frame_insert(fs.last(), flush_text(old(self).phase@)))
                    &&& actions_view(r@) == seq![pre_of(*final(self))]
                }
            }),
            ({
                let fs = frames_view(old(self).register_stack@);
                fs.len() > 0 && old(self).phase@ is Ascii && spec_printable_char(event.key) is Some && !has_ctrl(event.modifiers) ==> {
                    &&& final(self).phase@ == PhaseView::Ascii
                    &&& frames_view(final(self).register_stack@) == with_top(
                        fs,
                        frame_insert(fs.last(), seq![spec_printable_char(event.key)->0]),
                    )
                    &&& actions_view(r@) == seq![pre_of(*final(self))]
                }
            }),
            reg_passes_key(*old(self), *event) ==> register_passes_on(*old(self), *final(self), *event, actions_view(r@)),
            old(self).register_stack@.len() == 0 && is_toggle(old(self).keybindings, *event) ==> {
                &&& final(self).phase@ == (if old(self).phase@ is Ascii { PhaseView::Hiragana } else { PhaseView::Ascii })
                &&& !(old(self).phase@ is Ascii) ==> final(self).kana_state@.len() == 0
                &&& final(self).register_stack@.len() == 0
                &&& actions_view(r@) == seq![ActionView::ClearPreedit]
            },
            old(self).register_stack@.len() == 0 && final(self).register_stack@.len() == 0 && !is_toggle(old(self).keybindings, *event)
                ==> dispatch_outcome(*old(self), *final(self), *event, actions_view(r@)),
            old(self).register_stack@.len() == 0 && !is_toggle(old(self).keybindings, *event) && old(self).phase@ is Ascii ==> {
                &&& final(self).register_stack@.len() == 0
                &&& (is_ctrl_char(*event, 'j') || is_ctrl_char(*event, 'q')) ==> final(self).phase@ == PhaseView::Hiragana
                    && actions_view(r@) == seq![ActionView::ClearPreedit]
                &&& !(is_ctrl_char(*event, 'j') || is_ctrl_char(*event, 'q')) ==> final(self).phase@ == PhaseView::Ascii
                    && actions_view(r@) == seq![ActionView::Passthrough]
            },
    {
        let is_ctrl_g = event.key == Key::Char('g') && ctrl_held(event);
        if self.register_stack.len() > 0 {
            let in_ready = match self.phase {
                SkkPhase::Hiragana | SkkPhase::Katakana | SkkPhase::HalfWidthKatakana => true,
                _ => false,
            } && self.kana_state.as_str().is_empty();
            if in_ready {
                if is_ctrl_g {
                    return self.cancel_register();
                }
                match self.reg_buffer_key(event) {
                    Some(v) => return v,
                    None => {},
                }
            } else if is_ctrl_g {
                self.phase = SkkPhase::Hiragana;
                self.kana_state = String::new();
                return self.cancel_register();
            } else if event.key == Key::Return {
                let flush = match &self.phase {
                    SkkPhase::Abbrev { buf } => Some(buf.clone()),
                    SkkPhase::Midashi { kana_buf, .. } => Some(kana_buf.clone()),
                    SkkPhase::Okuri { midashi, .. } => Some(midashi.clone()),
                    _ => None,
                };
                match flush {
                    Some(text) => {
                        self.phase = SkkPhase::Hiragana;
                        self.kana_state = String::new();
                        self.top_insert(text.as_str());
                        return self.preedit_only();
                    },
                    None => {},
                }
            }
            if let SkkPhase::Ascii = self.phase {
                match self.reg_buffer_key(event) {
                    Some(v) => return v,
                    None => {},
                }
                if let Some(ch) = event.printable_char() {
                    if !ctrl_held(event) {
                        self.top_insert(char_to_string(ch).as_str());
                        return self.preedit_only();
                    }
                }
            }
        }
        if self.register_stack.len() == 0 && toggle_hit(&self.keybindings.toggle_keys, event) {
            if let SkkPhase::Ascii = self.phase {
                self.phase = SkkPhase::Hiragana;
            } else {
                self.phase = SkkPhase::Ascii;
                self.kana_state = String::new();
            }
            return acts1(EngineAction::ClearPreedit);
        }
        let ghost before = *self;
        let raw = self.dispatch(event);
        if self.register_stack.len() > 0 {
            let ghost mid = *self;
            let r = self.intercept_for_register(raw);
            proof {
                assert(intercepted(before, mid, *self, *event, actions_view(raw@), actions_view(r@)));
            }
            r
        } else {
            raw
        }
    }
}

} // verus!
